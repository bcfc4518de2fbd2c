//! Which tracing filter directives the filter parser can read without failing.
//!
//! The parser splits a directive on `,` and parses each non-empty part in turn,
//! stopping at the first part that does not parse. A part is read trimmed of
//! whitespace, but the parser cuts the untrimmed part at byte positions counted
//! in the trimmed one. When the part starts with whitespace those positions are
//! shifted, and a cut that lands inside a character panics. The positions it
//! cuts at are those its small state machine reaches: the `=` or `[` after a
//! target, the ends of a `[span]` name and of each `{field}`, and the start of
//! a level after `=`.
//!
//! [`directive_readable`] states exactly when no cut of a part the parser
//! reaches lands inside a character, taking a field's value pattern as
//! parsing (an invalid pattern only stops the parser sooner).
use vstd::prelude::*;

use crate::config::config_file::{
    collect_chars, find_char, index_of, lemma_index_of_append, lemma_index_of_bound, string_of,
    trim, trim_range,
};

verus! {

/// How many bytes `c` takes in UTF-8.
pub open spec fn char_width(c: char) -> nat {
    let u = c as u32;
    if u < 0x80 {
        1
    } else if u < 0x800 {
        2
    } else if u < 0x10000 {
        3
    } else {
        4
    }
}

/// How many bytes `s` takes in UTF-8.
pub open spec fn width(s: Seq<char>) -> nat
    decreases s.len(),
{
    if s.len() == 0 {
        0
    } else {
        width(s.drop_last()) + char_width(s.last())
    }
}

/// Byte position `x` of the UTF-8 text of `p` is where a character starts, or
/// the end: cutting `p` there is safe.
pub open spec fn at_boundary(p: Seq<char>, x: nat) -> bool {
    exists|m: int| 0 <= m <= p.len() && #[trigger] width(p.take(m)) == x
}

/// Whether `char::is_alphanumeric` holds of `c`.
pub uninterp spec fn alphanumeric(c: char) -> bool;

/// Reports whether `c` is alphanumeric.
///
/// Trusted: calls `char::is_alphanumeric`; the contract names its answer
/// `alphanumeric` of the character, which depends on the character alone.
#[verifier::external_body]
fn is_alphanumeric(c: char) -> (b: bool)
    ensures
        b == alphanumeric(c),
{
    c.is_alphanumeric()
}

/// Where the parser stands while it walks a trimmed part, with the byte
/// positions (in the trimmed text) that its pending cuts start from.
pub enum Scan {
    Start,
    LevelOrTarget,
    Span(nat),
    Field(nat),
    Fields,
    Target,
    Level(nat),
    /// The parser has returned an error; it cuts nothing more.
    Stopped,
    /// A cut landed inside a character of the untrimmed part `p`.
    Broken,
}

/// The cuts `p[a..b]` is safe.
pub open spec fn safe_cut(p: Seq<char>, a: nat, b: nat) -> bool {
    at_boundary(p, a) && at_boundary(p, b)
}

/// One step of the parser over the character `c` at byte position `i` of the
/// trimmed text of the part `p`.
pub open spec fn scan_step(p: Seq<char>, s: Scan, i: nat, c: char) -> Scan {
    match s {
        Scan::Start => if c == '[' {
            Scan::Span(i + 1)
        } else if c == '-' || c == ':' || c == '_' || alphanumeric(c) {
            Scan::LevelOrTarget
        } else {
            Scan::Stopped
        },
        Scan::LevelOrTarget => if c == '=' || c == '[' {
            if !safe_cut(p, 0, i) {
                Scan::Broken
            } else if c == '=' {
                Scan::Level(i + 1)
            } else {
                Scan::Span(i + 1)
            }
        } else {
            Scan::LevelOrTarget
        },
        Scan::Target => if c == '=' {
            Scan::Level(i + 1)
        } else {
            Scan::Stopped
        },
        Scan::Span(start) => if c == ']' || c == '{' {
            if !safe_cut(p, start, i) {
                Scan::Broken
            } else if c == ']' {
                Scan::Target
            } else {
                Scan::Field(i + 1)
            }
        } else {
            Scan::Span(start)
        },
        Scan::Field(start) => if c == '}' {
            if !safe_cut(p, start, i) {
                Scan::Broken
            } else if start == i {
                Scan::Stopped
            } else {
                Scan::Fields
            }
        } else {
            Scan::Field(start)
        },
        Scan::Fields => if c == ']' {
            Scan::Target
        } else {
            Scan::Stopped
        },
        Scan::Level(start) => Scan::Level(start),
        Scan::Stopped => Scan::Stopped,
        Scan::Broken => Scan::Broken,
    }
}

/// Where the parser stands after the characters `t` of the trimmed text of `p`.
pub open spec fn scan(p: Seq<char>, t: Seq<char>) -> Scan
    decreases t.len(),
{
    if t.len() == 0 {
        Scan::Start
    } else {
        scan_step(p, scan(p, t.drop_last()), width(t.drop_last()), t.last())
    }
}

/// Parsing the part `p` on its own panics: a cut lands inside a character,
/// during the walk or in the final cut of a level.
pub open spec fn part_panics(p: Seq<char>) -> bool {
    match scan(p, trim(p)) {
        Scan::Broken => true,
        Scan::Level(start) => !at_boundary(p, start),
        _ => false,
    }
}

/// Position `i` of `d` starts one of its comma-separated parts.
pub open spec fn part_start(d: Seq<char>, i: int) -> bool {
    i == 0 || d[i - 1] == ','
}

/// The comma-separated part of `d` that starts at position `i`.
pub open spec fn part_at(d: Seq<char>, i: int) -> Seq<char> {
    d.subrange(i, i + index_of(d.skip(i), ','))
}

/// Whether `tracing_subscriber::EnvFilter::try_new` accepts `directive`.
pub uninterp spec fn directive_accepted(directive: Seq<char>) -> bool;

/// The filter parser can read `d` without failing: the first part whose parse
/// would panic, if any, is never reached, because it is not the first part
/// and the parts before it (the text before it) are not all accepted.
pub open spec fn directive_readable(d: Seq<char>) -> bool {
    forall|i: int|
        0 <= i <= d.len() && part_start(d, i) && #[trigger] part_panics(part_at(d, i)) && (forall|
            j: int,
        | 0 <= j < i && part_start(d, j) ==> !part_panics(#[trigger] part_at(d, j))) ==> i > 0
            && !directive_accepted(d.take(i))
}

/// Reports whether `directive` is a valid tracing filter directive.
///
/// Trusted: calls `tracing_subscriber::EnvFilter::try_new` and reports whether
/// it returned `Ok`. Its answer depends on the directive text alone; the
/// contract names it `directive_accepted` of that text. The parser panics on
/// text that is not readable, which the `requires` leaves out.
#[verifier::external_body]
pub(crate) fn directive_parses(directive: &str) -> (b: bool)
    requires
        directive_readable(directive@),
    ensures
        b == directive_accepted(directive@),
{
    tracing_subscriber::EnvFilter::try_new(directive).is_ok()
}

/// Each character adds its width.
proof fn lemma_width_step(p: Seq<char>, k: int)
    requires
        0 <= k < p.len(),
    ensures
        width(p.take(k + 1)) == width(p.take(k)) + char_width(p[k]),
{
    assert(p.take(k + 1).drop_last() =~= p.take(k));
}

/// Longer prefixes are wider.
proof fn lemma_width_increasing(p: Seq<char>, m1: int, m2: int)
    requires
        0 <= m1 < m2 <= p.len(),
    ensures
        width(p.take(m1)) < width(p.take(m2)),
    decreases m2 - m1,
{
    lemma_width_step(p, m2 - 1);
    if m1 < m2 - 1 {
        lemma_width_increasing(p, m1, m2 - 1);
    }
}

/// No character before `index_of(s, c)` is `c`, and a `c` at `k` bounds it.
proof fn lemma_index_of_first(s: Seq<char>, c: char)
    ensures
        forall|j: int| 0 <= j < index_of(s, c) ==> s[j] != c,
        forall|k: int| 0 <= k < s.len() && s[k] == c ==> index_of(s, c) <= k,
    decreases s.len(),
{
    lemma_index_of_bound(s, c);
    if s.len() > 0 && s[0] != c {
        lemma_index_of_first(s.drop_first(), c);
        assert forall|j: int| 0 <= j < index_of(s, c) implies s[j] != c by {
            if j > 0 {
                assert(s[j] == s.drop_first()[j - 1]);
            }
        }
        assert forall|k: int| 0 <= k < s.len() && s[k] == c implies index_of(s, c) <= k by {
            assert(s[k] == s.drop_first()[k - 1]);
        }
    }
}

/// Returns how many bytes `c` takes in UTF-8.
fn char_len(c: char) -> (n: u128)
    ensures
        n == char_width(c),
        1 <= n <= 4,
{
    let u = c as u32;
    if u < 0x80 {
        1
    } else if u < 0x800 {
        2
    } else if u < 0x10000 {
        3
    } else {
        4
    }
}

/// Returns whether byte position `x` of `chars[a..e]` is where a character
/// starts, or the end.
fn cut_ok(chars: &Vec<char>, a: usize, e: usize, x: u128) -> (b: bool)
    requires
        a <= e <= chars@.len(),
    ensures
        b == at_boundary(chars@.subrange(a as int, e as int), x as nat),
{
    let ghost p = chars@.subrange(a as int, e as int);
    let mut m = a;
    let mut w: u128 = 0;
    assert(p.take(0) =~= Seq::<char>::empty());
    while m < e && w < x
        invariant
            a <= m <= e <= chars@.len(),
            p == chars@.subrange(a as int, e as int),
            w == width(p.take(m - a)),
            w <= 4 * (m - a),
            forall|k: int| 0 <= k < m - a ==> width(#[trigger] p.take(k)) < x,
        decreases e - m,
    {
        proof {
            lemma_width_step(p, m - a);
            assert(p[m - a] == chars@[m as int]);
        }
        w = w + char_len(chars[m]);
        m += 1;
    }
    proof {
        if w != x {
            assert forall|k: int| 0 <= k <= p.len() implies #[trigger] width(p.take(k)) != x by {
                if k > m - a {
                    lemma_width_increasing(p, m - a, k);
                }
            }
        }
    }
    w == x
}

/// Where the walk stands, with positions as numbers.
enum Walk {
    Start,
    LevelOrTarget,
    Span(u128),
    Field(u128),
    Fields,
    Target,
    Level(u128),
    Stopped,
    Broken,
}

/// The abstract value of a walk state.
spec fn walk_view(w: Walk) -> Scan {
    match w {
        Walk::Start => Scan::Start,
        Walk::LevelOrTarget => Scan::LevelOrTarget,
        Walk::Span(s) => Scan::Span(s as nat),
        Walk::Field(s) => Scan::Field(s as nat),
        Walk::Fields => Scan::Fields,
        Walk::Target => Scan::Target,
        Walk::Level(s) => Scan::Level(s as nat),
        Walk::Stopped => Scan::Stopped,
        Walk::Broken => Scan::Broken,
    }
}

/// One step of the walk over the character `c` at byte position `i`.
fn walk_step(chars: &Vec<char>, a: usize, e: usize, s: Walk, i: u128, c: char) -> (r: Walk)
    requires
        a <= e <= chars@.len(),
        i < 0xffff_ffff_ffff_ffff_ffff_ffff_ffff_fff0u128,
    ensures
        walk_view(r) == scan_step(chars@.subrange(a as int, e as int), walk_view(s), i as nat, c),
{
    match s {
        Walk::Start => {
            if c == '[' {
                Walk::Span(i + 1)
            } else if c == '-' || c == ':' || c == '_' || is_alphanumeric(c) {
                Walk::LevelOrTarget
            } else {
                Walk::Stopped
            }
        },
        Walk::LevelOrTarget => {
            if c == '=' || c == '[' {
                if !(cut_ok(chars, a, e, 0) && cut_ok(chars, a, e, i)) {
                    Walk::Broken
                } else if c == '=' {
                    Walk::Level(i + 1)
                } else {
                    Walk::Span(i + 1)
                }
            } else {
                Walk::LevelOrTarget
            }
        },
        Walk::Target => {
            if c == '=' {
                Walk::Level(i + 1)
            } else {
                Walk::Stopped
            }
        },
        Walk::Span(start) => {
            if c == ']' || c == '{' {
                if !(cut_ok(chars, a, e, start) && cut_ok(chars, a, e, i)) {
                    Walk::Broken
                } else if c == ']' {
                    Walk::Target
                } else {
                    Walk::Field(i + 1)
                }
            } else {
                Walk::Span(start)
            }
        },
        Walk::Field(start) => {
            if c == '}' {
                if !(cut_ok(chars, a, e, start) && cut_ok(chars, a, e, i)) {
                    Walk::Broken
                } else if start == i {
                    Walk::Stopped
                } else {
                    Walk::Fields
                }
            } else {
                Walk::Field(start)
            }
        },
        Walk::Fields => {
            if c == ']' {
                Walk::Target
            } else {
                Walk::Stopped
            }
        },
        Walk::Level(start) => Walk::Level(start),
        Walk::Stopped => Walk::Stopped,
        Walk::Broken => Walk::Broken,
    }
}

/// Returns whether parsing the part `chars[a..e]` on its own panics.
fn part_panics_at(chars: &Vec<char>, a: usize, e: usize) -> (b: bool)
    requires
        a <= e <= chars@.len(),
    ensures
        b == part_panics(chars@.subrange(a as int, e as int)),
{
    let ghost p = chars@.subrange(a as int, e as int);
    let (ts, te) = trim_range(chars, a, e);
    let ghost t = chars@.subrange(ts as int, te as int);
    let mut s = Walk::Start;
    let mut j = ts;
    let mut off: u128 = 0;
    assert(t.take(0) =~= Seq::<char>::empty());
    while j < te
        invariant
            a <= ts <= j <= te <= e <= chars@.len(),
            p == chars@.subrange(a as int, e as int),
            t == chars@.subrange(ts as int, te as int),
            t == trim(p),
            walk_view(s) == scan(p, t.take(j - ts)),
            off == width(t.take(j - ts)),
            off <= 4 * (j - ts),
        decreases te - j,
    {
        proof {
            let k = j - ts;
            assert(t.take(k + 1).drop_last() =~= t.take(k));
            assert(t.take(k + 1).last() == chars@[j as int]);
            lemma_width_step(t, k);
        }
        s = walk_step(chars, a, e, s, off, chars[j]);
        off = off + char_len(chars[j]);
        j += 1;
    }
    assert(t.take(j - ts) =~= t);
    match s {
        Walk::Broken => true,
        Walk::Level(start) => !cut_ok(chars, a, e, start),
        _ => false,
    }
}

/// The part of `d` at `i` is what lies before the first comma from `i`, and
/// the position after that comma starts the next part.
proof fn lemma_part_bounds(d: Seq<char>, i: int)
    requires
        0 <= i <= d.len(),
    ensures
        0 <= index_of(d.skip(i), ',') <= d.len() - i,
        forall|k: int| i <= k < i + index_of(d.skip(i), ',') ==> d[k] != ',',
        i + index_of(d.skip(i), ',') < d.len() ==> d[i + index_of(d.skip(i), ',')] == ',',
{
    let s = d.skip(i);
    lemma_index_of_bound(s, ',');
    lemma_index_of_first(s, ',');
    assert forall|k: int| i <= k < i + index_of(s, ',') implies d[k] != ',' by {
        assert(s[k - i] == d[k]);
    }
}

/// A part that ends before `i` is the same part of `d.take(i)` when a comma
/// stands at `i - 1`; the part at `i` of `d.take(i)` is empty.
proof fn lemma_prefix_parts(d: Seq<char>, i: int, j: int)
    requires
        0 < i <= d.len(),
        d[i - 1] == ',',
        0 <= j <= i,
    ensures
        j < i ==> part_at(d.take(i), j) == part_at(d, j),
        j == i ==> part_at(d.take(i), j) == Seq::<char>::empty(),
        j > 0 ==> (part_start(d.take(i), j) <==> part_start(d, j)),
{
    let q = d.take(i);
    if j < i {
        let a = q.skip(j);
        let x = d.skip(i);
        assert(a + x =~= d.skip(j));
        assert(a[i - 1 - j] == ',');
        lemma_index_of_first(a, ',');
        lemma_index_of_append(a, x, ',');
        lemma_index_of_bound(a, ',');
        assert(q.subrange(j, j + index_of(a, ',')) =~= d.subrange(j, j + index_of(a, ',')));
    } else {
        assert(q.skip(i) =~= Seq::<char>::empty());
        assert(q.subrange(i, i) =~= Seq::<char>::empty());
    }
    if j > 0 {
        assert(q[j - 1] == d[j - 1]);
    }
}

/// Returns `true` when the filter parser can read `directive` without failing.
pub fn is_readable_directive(directive: &str) -> (b: bool)
    ensures
        b == directive_readable(directive@),
{
    let chars = collect_chars(directive);
    let ghost d = directive@;
    let n = chars.len();
    let mut i: usize = 0;
    loop
        invariant
            chars@ == d,
            d == directive@,
            n == d.len(),
            i <= n,
            part_start(d, i as int),
            forall|j: int| 0 <= j < i && part_start(d, j) ==> !part_panics(#[trigger] part_at(d, j)),
        decreases n - i,
    {
        let e = find_char(&chars, i, n, ',');
        proof {
            assert(d.subrange(i as int, n as int) =~= d.skip(i as int));
            lemma_part_bounds(d, i as int);
            assert(chars@.subrange(i as int, e as int) == part_at(d, i as int));
        }
        if part_panics_at(&chars, i, e) {
            if i == 0 {
                assert(part_panics(part_at(d, 0)));
                return false;
            }
            let prefix = string_of(&chars, 0, i);
            proof {
                let q = d.take(i as int);
                assert(prefix@ =~= q);
                assert forall|k: int|
                    0 <= k <= q.len() && part_start(q, k) && #[trigger] part_panics(part_at(q, k))
                        && (forall|j: int|
                        0 <= j < k && part_start(q, j) ==> !part_panics(#[trigger] part_at(q, j)))
                        implies k > 0 && !directive_accepted(q.take(k)) by {
                    lemma_prefix_parts(d, i as int, k);
                    if k == i {
                        assert(trim(Seq::<char>::empty()) =~= Seq::<char>::empty());
                    }
                }
            }
            let accepted = directive_parses(prefix.as_str());
            proof {
                assert(part_panics(part_at(d, i as int)));
                assert forall|k: int|
                    0 <= k <= d.len() && part_start(d, k) && #[trigger] part_panics(part_at(d, k))
                        && (forall|j: int|
                        0 <= j < k && part_start(d, j) ==> !part_panics(#[trigger] part_at(d, j)))
                        implies k > 0 && !directive_accepted(d.take(k)) || k == i by {
                    if k > i {
                        assert(!part_panics(part_at(d, i as int)));
                    }
                }
            }
            return !accepted;
        }
        if e == n {
            proof {
                assert forall|k: int|
                    0 <= k <= d.len() && part_start(d, k) && #[trigger] part_panics(part_at(d, k))
                        && (forall|j: int|
                        0 <= j < k && part_start(d, j) ==> !part_panics(#[trigger] part_at(d, j)))
                        implies k > 0 && !directive_accepted(d.take(k)) by {
                    if k > i {
                        assert(d[k - 1] != ',');
                    }
                }
            }
            return true;
        }
        proof {
            assert forall|j: int|
                0 <= j < e + 1 && part_start(d, j) implies !part_panics(#[trigger] part_at(d, j)) by {
                if j > i {
                    assert(d[j - 1] != ',');
                }
            }
        }
        i = e + 1;
    }
}

} // verus!
