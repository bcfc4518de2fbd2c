//! Parsing of `P4CONFIG` files.
//!
//! A `P4CONFIG` file holds `VAR=value` lines. The parser is forgiving in the
//! same ways `p4` is: each line is trimmed of whitespace; blank lines, lines
//! starting with `#`, and lines without `=` are skipped; a line is split on its
//! first `=` and both halves are trimmed; a line with an empty name is
//! skipped; a later definition of a variable overrides an earlier one.
//!
//! Finding the file walks up from a directory, nearest first, and reads the
//! filesystem: the caller reads each candidate path and hands the outcome to
//! [`discover_step`], which says whether the search ends with a parsed file,
//! goes on to the parent directory, or fails.
use vstd::prelude::*;

use crate::error::{Error, ErrorClass};
use crate::output::{pairs_view, RecordView};
use crate::text::{push_char, push_str, str_eq};

verus! {

broadcast use vstd::string::group_string_axioms;

/// The characters `char::is_whitespace` accepts: those with the Unicode
/// `White_Space` property.
pub open spec fn is_white_space(c: char) -> bool {
    let u = c as u32;
    ||| 0x09 <= u <= 0x0d
    ||| u == 0x20
    ||| u == 0x85
    ||| u == 0xa0
    ||| u == 0x1680
    ||| 0x2000 <= u <= 0x200a
    ||| u == 0x2028
    ||| u == 0x2029
    ||| u == 0x202f
    ||| u == 0x205f
    ||| u == 0x3000
}

/// `s` without its leading whitespace.
pub open spec fn trim_start(s: Seq<char>) -> Seq<char>
    decreases s.len(),
{
    if s.len() > 0 && is_white_space(s[0]) {
        trim_start(s.drop_first())
    } else {
        s
    }
}

/// `s` without its trailing whitespace.
pub open spec fn trim_end(s: Seq<char>) -> Seq<char>
    decreases s.len(),
{
    if s.len() > 0 && is_white_space(s.last()) {
        trim_end(s.drop_last())
    } else {
        s
    }
}

/// `s` without leading and trailing whitespace, as `str::trim` gives it.
pub open spec fn trim(s: Seq<char>) -> Seq<char> {
    trim_end(trim_start(s))
}

/// The index of the first `c` in `s`, or `s.len()` when there is none.
pub open spec fn index_of(s: Seq<char>, c: char) -> int
    decreases s.len(),
{
    if s.len() == 0 {
        0
    } else if s[0] == c {
        0
    } else {
        1 + index_of(s.drop_first(), c)
    }
}

/// The effect of one line on the variables read so far.
pub open spec fn apply_line(vars: Map<Seq<char>, Seq<char>>, line: Seq<char>) -> Map<
    Seq<char>,
    Seq<char>,
> {
    let t = trim(line);
    if t.len() == 0 || t[0] == '#' {
        vars
    } else {
        let e = index_of(t, '=');
        if e == t.len() {
            vars
        } else {
            let name = trim(t.take(e));
            if name.len() == 0 {
                vars
            } else {
                vars.insert(name, trim(t.skip(e + 1)))
            }
        }
    }
}

/// The variables after reading text `s`, line by line, on top of `vars`.
pub open spec fn parse_from(vars: Map<Seq<char>, Seq<char>>, s: Seq<char>) -> Map<
    Seq<char>,
    Seq<char>,
>
    decreases s.len(),
{
    let n = index_of(s, '\n');
    if 0 <= n < s.len() {
        parse_from(apply_line(vars, s.take(n)), s.skip(n + 1))
    } else {
        apply_line(vars, s)
    }
}

/// The variables a `P4CONFIG` file's text defines.
pub open spec fn spec_parse(contents: Seq<char>) -> Map<Seq<char>, Seq<char>> {
    parse_from(Map::empty(), contents)
}

/// The map of a list of name/value entries, later entries winning.
pub open spec fn entries_map(entries: RecordView) -> Map<Seq<char>, Seq<char>>
    decreases entries.len(),
{
    if entries.len() == 0 {
        Map::empty()
    } else {
        entries_map(entries.drop_last()).insert(entries.last().0, entries.last().1)
    }
}

/// No two entries share a name.
pub open spec fn names_unique(entries: RecordView) -> bool {
    forall|i: int, j: int|
        0 <= i < entries.len() && 0 <= j < entries.len() && i != j ==> #[trigger] entries[i].0
            != #[trigger] entries[j].0
}

/// The `VAR=value` variables parsed from a `P4CONFIG` file.
#[derive(Debug)]
pub struct ConfigVariables {
    entries: Vec<(String, String)>,
}

impl ConfigVariables {
    #[verifier::type_invariant]
    spec fn unique(&self) -> bool {
        names_unique(pairs_view(self.entries@))
    }
}

impl View for ConfigVariables {
    type V = Map<Seq<char>, Seq<char>>;

    closed spec fn view(&self) -> Map<Seq<char>, Seq<char>> {
        entries_map(pairs_view(self.entries@))
    }
}

/// With unique names, the map holds exactly the entries' names, each with its
/// entry's value.
proof fn lemma_entries_map(entries: RecordView)
    requires
        names_unique(entries),
    ensures
        forall|k: Seq<char>|
            #[trigger] entries_map(entries).contains_key(k) <==> exists|i: int|
                0 <= i < entries.len() && entries[i].0 == k,
        forall|i: int|
            0 <= i < entries.len() ==> #[trigger] entries_map(entries)[entries[i].0]
                == entries[i].1,
        entries_map(entries).dom().finite(),
        entries_map(entries).dom().len() == entries.len(),
    decreases entries.len(),
{
    if entries.len() > 0 {
        let init = entries.drop_last();
        assert(names_unique(init)) by {
            assert forall|i: int, j: int|
                0 <= i < init.len() && 0 <= j < init.len() && i != j implies #[trigger] init[i].0
                != #[trigger] init[j].0 by {
                assert(init[i] == entries[i] && init[j] == entries[j]);
            }
        }
        lemma_entries_map(init);
        let last = entries.last();
        assert(!entries_map(init).contains_key(last.0)) by {
            if entries_map(init).contains_key(last.0) {
                let i = choose|i: int| 0 <= i < init.len() && init[i].0 == last.0;
                assert(entries[i].0 == entries[entries.len() - 1].0);
            }
        }
        assert forall|k: Seq<char>|
            #[trigger] entries_map(entries).contains_key(k) <==> exists|i: int|
                0 <= i < entries.len() && entries[i].0 == k by {
            if exists|i: int| 0 <= i < entries.len() && entries[i].0 == k {
                let i = choose|i: int| 0 <= i < entries.len() && entries[i].0 == k;
                if i < entries.len() - 1 {
                    assert(init[i] == entries[i]);
                }
            }
            if entries_map(init).contains_key(k) {
                let i = choose|i: int| 0 <= i < init.len() && init[i].0 == k;
                assert(entries[i] == init[i]);
            }
        }
        assert forall|i: int|
            0 <= i < entries.len() implies #[trigger] entries_map(entries)[entries[i].0]
            == entries[i].1 by {
            if i < entries.len() - 1 {
                assert(init[i] == entries[i]);
                assert(entries[i].0 != last.0);
            }
        }
    }
}

/// Replacing the value of an existing entry updates that name in the map.
proof fn lemma_entries_map_update(entries: RecordView, i: int, v: Seq<char>)
    requires
        names_unique(entries),
        0 <= i < entries.len(),
    ensures
        entries_map(entries.update(i, (entries[i].0, v))) == entries_map(entries).insert(
            entries[i].0,
            v,
        ),
    decreases entries.len(),
{
    let k = entries[i].0;
    let updated = entries.update(i, (k, v));
    if i == entries.len() - 1 {
        assert(updated.drop_last() =~= entries.drop_last());
        assert(entries_map(updated) =~= entries_map(entries).insert(k, v));
    } else {
        let init = entries.drop_last();
        assert(names_unique(init)) by {
            assert forall|a: int, b: int|
                0 <= a < init.len() && 0 <= b < init.len() && a != b implies #[trigger] init[a].0
                != #[trigger] init[b].0 by {
                assert(init[a] == entries[a] && init[b] == entries[b]);
            }
        }
        lemma_entries_map_update(init, i, v);
        assert(updated.drop_last() =~= init.update(i, (k, v)));
        assert(updated.last() == entries.last());
        assert(entries.last().0 != k) by {
            assert(entries[entries.len() - 1] == entries.last());
        }
        assert(entries_map(updated) =~= entries_map(entries).insert(k, v));
    }
}

impl ConfigVariables {
    /// Creates an empty set of variables.
    pub fn new() -> (v: ConfigVariables)
        ensures
            v@ == Map::<Seq<char>, Seq<char>>::empty(),
    {
        let v = ConfigVariables { entries: Vec::new() };
        assert(pairs_view(v.entries@) =~= RecordView::empty());
        v
    }

    /// Sets `name` to `value`, replacing any earlier definition.
    pub fn insert(&mut self, name: String, value: String)
        ensures
            final(self)@ == old(self)@.insert(name@, value@),
    {
        proof {
            use_type_invariant(&*self);
        }
        let mut list: Vec<(String, String)> = Vec::new();
        std::mem::swap(&mut list, &mut self.entries);
        let ghost entries = pairs_view(list@);
        assert(entries == pairs_view(old(self).entries@));
        let mut i: usize = 0;
        while i < list.len()
            invariant
                i <= list@.len(),
                entries == pairs_view(list@),
                entries == pairs_view(old(self).entries@),
                names_unique(entries),
                forall|j: int| 0 <= j < i ==> entries[j].0 != name@,
            decreases list@.len() - i,
        {
            assert(entries[i as int] == (list@[i as int].0@, list@[i as int].1@));
            if list[i].0 == name {
                let ghost k = entries[i as int].0;
                proof {
                    lemma_entries_map_update(entries, i as int, value@);
                    assert(entries.update(i as int, (k, value@)) =~= pairs_view(
                        list@.update(i as int, (name, value)),
                    ));
                    assert(names_unique(entries.update(i as int, (k, value@)))) by {
                        let u = entries.update(i as int, (k, value@));
                        assert forall|a: int, b: int|
                            0 <= a < u.len() && 0 <= b < u.len() && a != b implies #[trigger] u[a].0
                            != #[trigger] u[b].0 by {
                            assert(u[a].0 == entries[a].0 && u[b].0 == entries[b].0);
                        }
                    }
                }
                assert(k == name@);
                list.set(i, (name, value));
                assert(pairs_view(list@) == entries.update(i as int, (k, value@)));
                self.entries = list;
                assert(self@ == old(self)@.insert(k, value@));
                return;
            }
            i += 1;
        }
        proof {
            let pushed = entries.push((name@, value@));
            assert(pushed =~= pairs_view(list@.push((name, value))));
            assert(pushed.drop_last() =~= entries);
            assert(names_unique(pushed)) by {
                assert forall|a: int, b: int|
                    0 <= a < pushed.len() && 0 <= b < pushed.len() && a != b implies #[trigger] pushed[a].0
                    != #[trigger] pushed[b].0 by {
                    if a < entries.len() {
                        assert(pushed[a] == entries[a]);
                    }
                    if b < entries.len() {
                        assert(pushed[b] == entries[b]);
                    }
                }
            }
        }
        list.push((name, value));
        self.entries = list;
    }

    /// Returns the value of `variable`, if it is defined; the lookup is exact
    /// and case-sensitive.
    pub fn get(&self, variable: &str) -> (r: Option<&str>)
        ensures
            match r {
                Some(v) => self@.contains_key(variable@) && self@[variable@] == v@,
                None => !self@.contains_key(variable@),
            },
    {
        proof {
            use_type_invariant(self);
        }
        let ghost entries = pairs_view(self.entries@);
        proof {
            lemma_entries_map(entries);
        }
        let mut i: usize = 0;
        while i < self.entries.len()
            invariant
                i <= self.entries@.len(),
                entries == pairs_view(self.entries@),
                names_unique(entries),
                forall|j: int| 0 <= j < i ==> entries[j].0 != variable@,
            decreases self.entries@.len() - i,
        {
            assert(entries[i as int] == (self.entries@[i as int].0@, self.entries@[i as int].1@));
            if str_eq(self.entries[i].0.as_str(), variable) {
                proof {
                    lemma_entries_map(entries);
                }
                assert(entries_map(entries)[entries[i as int].0] == entries[i as int].1);
                assert(entries_map(entries).contains_key(entries[i as int].0));
                return Some(self.entries[i].1.as_str());
            }
            i += 1;
        }
        None
    }

    /// Returns how many distinct variables are defined.
    pub fn len(&self) -> (n: usize)
        ensures
            n == self@.dom().len(),
    {
        proof {
            use_type_invariant(self);
            lemma_entries_map(pairs_view(self.entries@));
        }
        self.entries.len()
    }
}

impl Clone for ConfigVariables {
    fn clone(&self) -> (c: ConfigVariables)
        ensures
            c@ == self@,
    {
        proof {
            use_type_invariant(self);
        }
        let ghost entries = pairs_view(self.entries@);
        let mut list: Vec<(String, String)> = Vec::new();
        let mut i: usize = 0;
        while i < self.entries.len()
            invariant
                i <= self.entries@.len(),
                entries == pairs_view(self.entries@),
                pairs_view(list@) == entries.take(i as int),
            decreases self.entries@.len() - i,
        {
            let ghost before = list@;
            assert(entries[i as int] == (self.entries@[i as int].0@, self.entries@[i as int].1@));
            let pair = (self.entries[i].0.clone(), self.entries[i].1.clone());
            list.push(pair);
            assert(pairs_view(list@) =~= pairs_view(before).push((pair.0@, pair.1@)));
            assert(entries.take(i + 1) =~= entries.take(i as int).push(entries[i as int]));
            i += 1;
            assert(pairs_view(list@) =~= entries.take(i as int));
        }
        assert(entries.take(i as int) =~= entries);
        ConfigVariables { entries: list }
    }
}

/// The first `c` of `a` followed by anything is found where it is in `a`; when
/// `a` has none, a `c` right after `a` is found there.
pub(crate) proof fn lemma_index_of_append(a: Seq<char>, x: Seq<char>, c: char)
    requires
        index_of(a, c) < a.len() || (x.len() > 0 && x[0] == c),
    ensures
        index_of(a + x, c) == index_of(a, c),
    decreases a.len(),
{
    if a.len() == 0 {
        assert(a + x =~= x);
    } else {
        assert((a + x)[0] == a[0]);
        if a[0] != c {
            assert((a + x).drop_first() =~= a.drop_first() + x);
            lemma_index_of_append(a.drop_first(), x, c);
        }
    }
}

/// The first line of text always has no newline in it.
pub(crate) proof fn lemma_index_of_bound(s: Seq<char>, c: char)
    ensures
        0 <= index_of(s, c) <= s.len(),
        index_of(s, c) < s.len() ==> s[index_of(s, c)] == c,
    decreases s.len(),
{
    if s.len() > 0 && s[0] != c {
        lemma_index_of_bound(s.drop_first(), c);
    }
}

/// Reading `a`, a newline, then `b` is reading `a` and then reading `b`.
proof fn lemma_parse_from_concat(vars: Map<Seq<char>, Seq<char>>, a: Seq<char>, b: Seq<char>)
    ensures
        parse_from(vars, a + seq!['\n'] + b) == parse_from(parse_from(vars, a), b),
    decreases a.len(),
{
    let text = a + seq!['\n'] + b;
    let n = index_of(a, '\n');
    lemma_index_of_bound(a, '\n');
    assert(text =~= a + (seq!['\n'] + b));
    lemma_index_of_append(a, seq!['\n'] + b, '\n');
    assert(index_of(text, '\n') == n);
    assert(text.take(n) =~= a.take(n));
    if n < a.len() {
        assert(text.skip(n + 1) =~= a.skip(n + 1) + seq!['\n'] + b);
        lemma_parse_from_concat(apply_line(vars, a.take(n)), a.skip(n + 1), b);
    } else {
        assert(a.take(n) =~= a);
        assert(text.skip(n + 1) =~= b);
    }
}

/// A string whose ends are not whitespace is its own trim.
proof fn lemma_trim_clean(s: Seq<char>)
    requires
        s.len() > 0 ==> !is_white_space(s[0]) && !is_white_space(s.last()),
    ensures
        trim(s) == s,
{
    assert(trim_start(s) == s);
}

/// A line `name=value` whose name holds no whitespace, `=` or leading `#`
/// and whose value holds no newline nor surrounding whitespace.
pub open spec fn clean_definition(name: Seq<char>, value: Seq<char>) -> bool {
    &&& name.len() > 0
    &&& name[0] != '#'
    &&& forall|i: int| 0 <= i < name.len() ==> !is_white_space(#[trigger] name[i]) && name[i] != '='
    &&& forall|i: int| 0 <= i < value.len() ==> #[trigger] value[i] != '\n'
    &&& value.len() > 0 ==> !is_white_space(value[0]) && !is_white_space(value.last())
}

/// Law: a later definition of a variable overrides an earlier one: whatever
/// text comes first, a final line `name=value` sets `name` to `value`.
pub proof fn law_later_definition_wins(earlier: Seq<char>, name: Seq<char>, value: Seq<char>)
    requires
        clean_definition(name, value),
    ensures
        spec_parse(earlier + seq!['\n'] + name + seq!['='] + value).contains_key(name),
        spec_parse(earlier + seq!['\n'] + name + seq!['='] + value)[name] == value,
{
    let line = name + seq!['='] + value;
    assert(earlier + seq!['\n'] + name + seq!['='] + value =~= earlier + seq!['\n'] + line);
    lemma_parse_from_concat(Map::empty(), earlier, line);
    let before = parse_from(Map::empty(), earlier);
    // The line holds no newline, so it is read as a single line.
    assert forall|j: int| 0 <= j < line.len() implies #[trigger] line[j] != '\n' by {
        if j < name.len() {
            assert(line[j] == name[j]);
        } else if j > name.len() {
            assert(line[j] == value[j - name.len() - 1]);
        }
    }
    lemma_index_of(line, '\n', line.len() as int);
    // The line is already trimmed.
    assert(line[0] == name[0]);
    if value.len() > 0 {
        assert(line.last() == value.last());
    }
    lemma_trim_clean(line);
    // It splits on its first `=`, right after the name.
    assert forall|j: int| 0 <= j < name.len() implies #[trigger] line[j] != '=' by {
        assert(line[j] == name[j]);
    }
    lemma_index_of(line, '=', name.len() as int);
    assert(line.take(name.len() as int) =~= name);
    assert(line.skip(name.len() as int + 1) =~= value);
    lemma_trim_clean(name);
    lemma_trim_clean(value);
    assert(apply_line(before, line) == before.insert(name, value));
}

/// Returns `true` for the characters `char::is_whitespace` accepts.
pub fn is_whitespace(c: char) -> (b: bool)
    ensures
        b == is_white_space(c),
{
    let u = c as u32;
    (0x09 <= u && u <= 0x0d) || u == 0x20 || u == 0x85 || u == 0xa0 || u == 0x1680 || (0x2000 <= u
        && u <= 0x200a) || u == 0x2028 || u == 0x2029 || u == 0x202f || u == 0x205f || u == 0x3000
}

/// Returns the characters of `s`.
pub(crate) fn collect_chars(s: &str) -> (v: Vec<char>)
    ensures
        v@ == s@,
{
    let mut v: Vec<char> = Vec::new();
    for c in it: s.chars()
        invariant
            v@ == it.seq().take(it.index() as int),
            it.seq() == s@,
    {
        v.push(c);
    }
    v
}

/// Skipping leading whitespace up to the first other character is `trim_start`.
proof fn lemma_trim_start(s: Seq<char>, k: int)
    requires
        0 <= k <= s.len(),
        forall|j: int| 0 <= j < k ==> is_white_space(#[trigger] s[j]),
        k < s.len() ==> !is_white_space(s[k]),
    ensures
        trim_start(s) == s.skip(k),
    decreases k,
{
    if k == 0 {
        assert(s.skip(0) =~= s);
    } else {
        let t = s.drop_first();
        assert forall|j: int| 0 <= j < k - 1 implies is_white_space(#[trigger] t[j]) by {
            assert(t[j] == s[j + 1]);
        }
        if k - 1 < t.len() {
            assert(t[k - 1] == s[k]);
        }
        lemma_trim_start(t, k - 1);
        assert(t.skip(k - 1) =~= s.skip(k));
    }
}

/// Dropping trailing whitespace back to the last other character is `trim_end`.
proof fn lemma_trim_end(s: Seq<char>, k: int)
    requires
        0 <= k <= s.len(),
        forall|j: int| k <= j < s.len() ==> is_white_space(#[trigger] s[j]),
        k > 0 ==> !is_white_space(s[k - 1]),
    ensures
        trim_end(s) == s.take(k),
    decreases s.len() - k,
{
    if k == s.len() {
        assert(s.take(k) =~= s);
    } else {
        let t = s.drop_last();
        assert forall|j: int| k <= j < t.len() implies is_white_space(#[trigger] t[j]) by {
            assert(t[j] == s[j]);
        }
        if k > 0 {
            assert(t[k - 1] == s[k - 1]);
        }
        assert(is_white_space(s[s.len() - 1]));
        lemma_trim_end(t, k);
        assert(t.take(k) =~= s.take(k));
    }
}

/// Scanning to the first `c` finds `index_of`.
pub(crate) proof fn lemma_index_of(s: Seq<char>, c: char, k: int)
    requires
        0 <= k <= s.len(),
        forall|j: int| 0 <= j < k ==> #[trigger] s[j] != c,
        k < s.len() ==> s[k] == c,
    ensures
        index_of(s, c) == k,
    decreases k,
{
    if k > 0 {
        let t = s.drop_first();
        assert forall|j: int| 0 <= j < k - 1 implies #[trigger] t[j] != c by {
            assert(t[j] == s[j + 1]);
        }
        if k - 1 < t.len() {
            assert(t[k - 1] == s[k]);
        }
        lemma_index_of(t, c, k - 1);
    }
}

/// Returns the bounds of `chars[start..end]` with surrounding whitespace removed.
pub(crate) fn trim_range(chars: &Vec<char>, start: usize, end: usize) -> (r: (usize, usize))
    requires
        start <= end <= chars@.len(),
    ensures
        start <= r.0 <= r.1 <= end,
        chars@.subrange(r.0 as int, r.1 as int) == trim(chars@.subrange(start as int, end as int)),
{
    let ghost s = chars@.subrange(start as int, end as int);
    let mut a = start;
    while a < end && is_whitespace(chars[a])
        invariant
            start <= a <= end <= chars@.len(),
            s == chars@.subrange(start as int, end as int),
            forall|j: int| start <= j < a ==> is_white_space(#[trigger] chars@[j]),
        decreases end - a,
    {
        a += 1;
    }
    proof {
        assert forall|j: int| 0 <= j < a - start implies is_white_space(#[trigger] s[j]) by {
            assert(s[j] == chars@[start + j]);
        }
        if a < end {
            assert(s[a - start] == chars@[a as int]);
        }
        lemma_trim_start(s, a - start);
        assert(s.skip(a - start) =~= chars@.subrange(a as int, end as int));
    }
    let ghost t = chars@.subrange(a as int, end as int);
    let mut b = end;
    while b > a && is_whitespace(chars[b - 1])
        invariant
            a <= b <= end <= chars@.len(),
            t == chars@.subrange(a as int, end as int),
            forall|j: int| b <= j < end ==> is_white_space(#[trigger] chars@[j]),
        decreases b - a,
    {
        b -= 1;
    }
    proof {
        assert forall|j: int| b - a <= j < t.len() implies is_white_space(#[trigger] t[j]) by {
            assert(t[j] == chars@[a + j]);
        }
        if b > a {
            assert(t[b - a - 1] == chars@[b - 1]);
        }
        lemma_trim_end(t, b - a);
        assert(t.take(b - a) =~= chars@.subrange(a as int, b as int));
    }
    (a, b)
}

/// Returns the index of the first `c` in `chars[start..end]`, or `end`.
pub(crate) fn find_char(chars: &Vec<char>, start: usize, end: usize, c: char) -> (r: usize)
    requires
        start <= end <= chars@.len(),
    ensures
        start <= r <= end,
        r - start == index_of(chars@.subrange(start as int, end as int), c),
{
    let mut k = start;
    while k < end && chars[k] != c
        invariant
            start <= k <= end <= chars@.len(),
            forall|j: int| start <= j < k ==> #[trigger] chars@[j] != c,
        decreases end - k,
    {
        k += 1;
    }
    proof {
        let s = chars@.subrange(start as int, end as int);
        assert forall|j: int| 0 <= j < k - start implies #[trigger] s[j] != c by {
            assert(s[j] == chars@[start + j]);
        }
        if k < end {
            assert(s[k - start] == chars@[k as int]);
        }
        lemma_index_of(s, c, k - start);
    }
    k
}

/// Returns the characters `chars[start..end]` as a string.
pub(crate) fn string_of(chars: &Vec<char>, start: usize, end: usize) -> (s: String)
    requires
        start <= end <= chars@.len(),
    ensures
        s@ == chars@.subrange(start as int, end as int),
{
    let mut s = String::new();
    let mut k = start;
    while k < end
        invariant
            start <= k <= end <= chars@.len(),
            s@ == chars@.subrange(start as int, k as int),
        decreases end - k,
    {
        push_char(&mut s, chars[k]);
        k += 1;
        assert(s@ =~= chars@.subrange(start as int, k as int));
    }
    s
}

/// Applies the line `chars[start..end]` to `vars`.
fn read_line(vars: &mut ConfigVariables, chars: &Vec<char>, start: usize, end: usize)
    requires
        start <= end <= chars@.len(),
    ensures
        final(vars)@ == apply_line(old(vars)@, chars@.subrange(start as int, end as int)),
{
    let ghost line = chars@.subrange(start as int, end as int);
    let (ts, te) = trim_range(chars, start, end);
    let ghost t = chars@.subrange(ts as int, te as int);
    if ts == te {
        return;
    }
    if chars[ts] == '#' {
        assert(t[0] == chars@[ts as int]);
        return;
    }
    let eq = find_char(chars, ts, te, '=');
    if eq == te {
        return;
    }
    let (ns, ne) = trim_range(chars, ts, eq);
    assert(chars@.subrange(ts as int, eq as int) =~= t.take(eq - ts));
    if ns == ne {
        return;
    }
    let (vs, ve) = trim_range(chars, eq + 1, te);
    assert(chars@.subrange(eq + 1, te as int) =~= t.skip(eq - ts + 1));
    let name = string_of(chars, ns, ne);
    let value = string_of(chars, vs, ve);
    vars.insert(name, value);
}

/// Parses `VAR=value` lines from `P4CONFIG` file text into variables.
pub fn parse(contents: &str) -> (vars: ConfigVariables)
    ensures
        vars@ == spec_parse(contents@),
{
    let chars = collect_chars(contents);
    let mut vars = ConfigVariables::new();
    let mut pos: usize = 0;
    assert(chars@.skip(0) =~= chars@);
    loop
        invariant_except_break
            pos <= chars@.len(),
            spec_parse(contents@) == parse_from(vars@, chars@.skip(pos as int)),
        ensures
            spec_parse(contents@) == vars@,
        decreases chars@.len() - pos,
    {
        let ghost rest = chars@.skip(pos as int);
        let end = find_char(&chars, pos, chars.len(), '\n');
        assert(chars@.subrange(pos as int, chars@.len() as int) =~= rest);
        assert(chars@.subrange(pos as int, end as int) =~= rest.take(end - pos));
        read_line(&mut vars, &chars, pos, end);
        if end == chars.len() {
            assert(rest.take(end - pos) =~= rest);
            break;
        }
        assert(rest.skip(end - pos + 1) =~= chars@.skip(end + 1));
        pos = end + 1;
    }
    vars
}

/// The abstract value of a [`ConfigFile`]: its path and its variables.
pub struct ConfigFileView {
    pub path: Seq<char>,
    pub variables: Map<Seq<char>, Seq<char>>,
}

/// The parsed contents of a single `P4CONFIG` file: its path and its variables.
#[derive(Debug, Clone)]
pub struct ConfigFile {
    path: String,
    variables: ConfigVariables,
}

impl View for ConfigFile {
    type V = ConfigFileView;

    closed spec fn view(&self) -> ConfigFileView {
        ConfigFileView { path: self.path@, variables: self.variables@ }
    }
}

impl ConfigFile {
    /// Builds the file read from `path` with text `contents`.
    pub fn from_contents(path: &str, contents: &str) -> (f: ConfigFile)
        ensures
            f@.path == path@,
            f@.variables == spec_parse(contents@),
    {
        ConfigFile { path: path.to_owned(), variables: parse(contents) }
    }

    /// Returns the path of the file these variables were read from.
    pub fn path(&self) -> (p: &str)
        ensures
            p@ == self@.path,
    {
        self.path.as_str()
    }

    /// Returns the value for `variable`, if the file defined it.
    pub fn get(&self, variable: &str) -> (r: Option<&str>)
        ensures
            match r {
                Some(v) => self@.variables.contains_key(variable@) && self@.variables[variable@]
                    == v@,
                None => !self@.variables.contains_key(variable@),
            },
    {
        self.variables.get(variable)
    }
}

/// What reading one candidate `P4CONFIG` path gave.
pub enum CandidateRead {
    /// The file is there and holds this text.
    Contents(String),
    /// No file of that name is there.
    NotFound,
    /// The file is there but could not be read; the text renders the cause.
    Failed(String),
}

/// What the upward search does after reading one candidate.
pub enum SearchStep {
    /// The nearest file was found and parsed: the search ends with it.
    Found(ConfigFile),
    /// Nothing here: the search goes on to the parent directory.
    Continue,
    /// A file was found but could not be read: the search fails.
    Fail(Error),
}

/// The abstract value of a [`CandidateRead`].
pub enum CandidateReadView {
    Contents(Seq<char>),
    NotFound,
    Failed(Seq<char>),
}

impl View for CandidateRead {
    type V = CandidateReadView;

    open spec fn view(&self) -> CandidateReadView {
        match self {
            CandidateRead::Contents(t) => CandidateReadView::Contents(t@),
            CandidateRead::NotFound => CandidateReadView::NotFound,
            CandidateRead::Failed(c) => CandidateReadView::Failed(c@),
        }
    }
}

/// The abstract value of a [`SearchStep`]: the file found, going on, or the
/// error's class, message and cause.
pub enum SearchOutcome {
    Found(ConfigFileView),
    Continue,
    Fail { class: ErrorClass, message: Seq<char>, source: Option<Seq<char>> },
}

impl View for SearchStep {
    type V = SearchOutcome;

    open spec fn view(&self) -> SearchOutcome {
        match self {
            SearchStep::Found(f) => SearchOutcome::Found(f@),
            SearchStep::Continue => SearchOutcome::Continue,
            SearchStep::Fail(e) => SearchOutcome::Fail {
                class: e.spec_class(),
                message: e.spec_message(),
                source: e.spec_source(),
            },
        }
    }
}

/// The message of the error for a `P4CONFIG` file that could not be read.
pub open spec fn read_failure_message(candidate: Seq<char>) -> Seq<char> {
    "failed to read P4CONFIG file '"@ + candidate + "'"@
}

/// What the search does on the candidate path `candidate` given what reading
/// it gave: a file that is there ends it with the file's parsed variables, a
/// missing one sends it on, any other failure ends it with a command-class
/// error naming the file, the cause attached.
pub open spec fn spec_discover_step(candidate: Seq<char>, read: CandidateReadView) -> SearchOutcome {
    match read {
        CandidateReadView::Contents(text) => SearchOutcome::Found(
            ConfigFileView { path: candidate, variables: spec_parse(text) },
        ),
        CandidateReadView::NotFound => SearchOutcome::Continue,
        CandidateReadView::Failed(cause) => SearchOutcome::Fail {
            class: ErrorClass::Command,
            message: read_failure_message(candidate),
            source: Some(cause),
        },
    }
}

/// Decides the upward search on one candidate path, `candidate`, and what
/// reading it gave: a file that is there ends the search with its parsed
/// variables; a missing one sends it on to the parent; any other read failure
/// is a command-class error naming the file, with the cause attached.
pub fn discover_step(candidate: &str, read: CandidateRead) -> (step: SearchStep)
    ensures
        match read {
            CandidateRead::Contents(text) => step matches SearchStep::Found(f) && f@.path
                == candidate@ && f@.variables == spec_parse(text@),
            CandidateRead::NotFound => step is Continue,
            CandidateRead::Failed(cause) => step matches SearchStep::Fail(e) && e.spec_class()
                == ErrorClass::Command && e.spec_message() == read_failure_message(candidate@)
                && e.spec_source() == Some(cause@),
        },
        step@ == spec_discover_step(candidate@, read@),
{
    match read {
        CandidateRead::Contents(text) => SearchStep::Found(
            ConfigFile::from_contents(candidate, text.as_str()),
        ),
        CandidateRead::NotFound => SearchStep::Continue,
        CandidateRead::Failed(cause) => {
            let mut message = String::new();
            proof {
                reveal_strlit("failed to read P4CONFIG file '");
                reveal_strlit("'");
            }
            push_str(&mut message, "failed to read P4CONFIG file '");
            push_str(&mut message, candidate);
            push_str(&mut message, "'");
            SearchStep::Fail(Error::command(message.as_str()).with_source(cause.as_str()))
        },
    }
}

/// The search over the candidate paths `candidates`, nearest first, where
/// reading the `j`-th gave `reads[j]`: the first candidate that is not
/// missing decides it; `Continue` when every candidate is missing.
pub open spec fn spec_discover(candidates: Seq<Seq<char>>, reads: Seq<CandidateReadView>) -> SearchOutcome
    decreases candidates.len(),
{
    if candidates.len() == 0 || reads.len() == 0 {
        SearchOutcome::Continue
    } else {
        match spec_discover_step(candidates[0], reads[0]) {
            SearchOutcome::Continue => spec_discover(candidates.drop_first(), reads.drop_first()),
            decided => decided,
        }
    }
}

/// Law: the nearest candidate whose file is not missing decides the search,
/// with exactly what one step on it gives, and what the candidates past it
/// hold makes no difference: they are never read. When every candidate is
/// missing, no file is found.
pub proof fn law_nearest_file_wins(
    candidates: Seq<Seq<char>>,
    reads: Seq<CandidateReadView>,
    others: Seq<CandidateReadView>,
    k: int,
)
    requires
        candidates.len() == reads.len(),
        0 <= k <= reads.len(),
        forall|j: int| 0 <= j < k ==> #[trigger] reads[j] is NotFound,
        k < reads.len() ==> !(reads[k] is NotFound),
        others.len() == reads.len(),
        forall|j: int| 0 <= j <= k && j < reads.len() ==> #[trigger] others[j] == reads[j],
    ensures
        k < reads.len() ==> spec_discover(candidates, reads) == spec_discover_step(
            candidates[k],
            reads[k],
        ),
        k == reads.len() ==> spec_discover(candidates, reads) is Continue,
        spec_discover(candidates, others) == spec_discover(candidates, reads),
    decreases k,
{
    if k > 0 {
        let c2 = candidates.drop_first();
        let r2 = reads.drop_first();
        let o2 = others.drop_first();
        assert(reads[0] is NotFound);
        assert(others[0] == reads[0]);
        assert forall|j: int| 0 <= j < k - 1 implies #[trigger] r2[j] is NotFound by {
            assert(r2[j] == reads[j + 1]);
        }
        assert forall|j: int| 0 <= j <= k - 1 && j < r2.len() implies #[trigger] o2[j] == r2[j] by {
            assert(o2[j] == others[j + 1]);
            assert(r2[j] == reads[j + 1]);
        }
        if k < reads.len() {
            assert(r2[k - 1] == reads[k]);
            assert(c2[k - 1] == candidates[k]);
        }
        law_nearest_file_wins(c2, r2, o2, k - 1);
    } else if k < reads.len() {
        assert(others[0] == reads[0]);
    }
}

} // verus!
