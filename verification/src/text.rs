//! Searching and cutting lines of text, seen as sequences of characters.

use vstd::prelude::*;

verus! {

/// `pattern` stands in `text` from position `at` on.
pub open spec fn occurs_at(text: Seq<char>, pattern: Seq<char>, at: int) -> bool {
    &&& 0 <= at
    &&& at + pattern.len() <= text.len()
    &&& text.subrange(at, at + pattern.len()) == pattern
}

/// `pattern` stands somewhere in `text`.
pub open spec fn contains(text: Seq<char>, pattern: Seq<char>) -> bool {
    exists|at: int| occurs_at(text, pattern, at)
}

/// `pattern` stands in `text` at `at` and nowhere before.
pub open spec fn is_first_occurrence(text: Seq<char>, pattern: Seq<char>, at: int) -> bool {
    &&& occurs_at(text, pattern, at)
    &&& forall|before: int| 0 <= before < at ==> !occurs_at(text, pattern, before)
}

/// The leftmost position at which `pattern` stands in `text`.
pub open spec fn first_occurrence(text: Seq<char>, pattern: Seq<char>) -> Option<int> {
    if contains(text, pattern) {
        Some(choose|at: int| is_first_occurrence(text, pattern, at))
    } else {
        None
    }
}

/// `text` with the leftmost occurrence of `pattern` cut out; `text` itself
/// where there is none.
pub open spec fn remove_first(text: Seq<char>, pattern: Seq<char>) -> Seq<char> {
    match first_occurrence(text, pattern) {
        Some(at) => text.subrange(0, at) + text.subrange(at + pattern.len(), text.len() as int),
        None => text,
    }
}

/// `text` with `piece` put in before position `at`, or at the end where
/// `text` is shorter than that.
pub open spec fn insert_at(text: Seq<char>, at: int, piece: Seq<char>) -> Seq<char> {
    let cut = if at <= text.len() {
        at
    } else {
        text.len() as int
    };
    text.subrange(0, cut) + piece + text.subrange(cut, text.len() as int)
}

/// `c` is the character at `at` and stands nowhere before.
pub open spec fn is_first_index_of(text: Seq<char>, c: char, at: int) -> bool {
    &&& 0 <= at < text.len()
    &&& text[at] == c
    &&& forall|before: int| 0 <= before < at ==> text[before] != c
}

/// The leftmost position of `c` in `text`.
pub open spec fn first_index_of(text: Seq<char>, c: char) -> Option<int> {
    if text.contains(c) {
        Some(choose|at: int| is_first_index_of(text, c, at))
    } else {
        None
    }
}

/// An executable position as a mathematical one.
pub open spec fn position_view(position: Option<usize>) -> Option<int> {
    match position {
        Some(at) => Some(at as int),
        None => None,
    }
}

/// Among the occurrences of `pattern` below `bound` there is a leftmost one.
proof fn lemma_least_occurrence(text: Seq<char>, pattern: Seq<char>, bound: int)
    requires
        occurs_at(text, pattern, bound),
    ensures
        exists|at: int| is_first_occurrence(text, pattern, at) && at <= bound,
    decreases bound,
{
    if exists|before: int| 0 <= before < bound && occurs_at(text, pattern, before) {
        let before = choose|before: int| 0 <= before < bound && occurs_at(text, pattern, before);
        lemma_least_occurrence(text, pattern, before);
    } else {
        assert(is_first_occurrence(text, pattern, bound));
    }
}

/// `first_occurrence` is the leftmost occurrence, and `None` exactly where
/// there is no occurrence.
pub proof fn lemma_first_occurrence(text: Seq<char>, pattern: Seq<char>)
    ensures
        match first_occurrence(text, pattern) {
            Some(at) => is_first_occurrence(text, pattern, at),
            None => forall|at: int| !occurs_at(text, pattern, at),
        },
{
    if contains(text, pattern) {
        let some = choose|at: int| occurs_at(text, pattern, at);
        lemma_least_occurrence(text, pattern, some);
    }
}

/// A leftmost occurrence is the one that `first_occurrence` gives.
pub proof fn lemma_first_occurrence_is(text: Seq<char>, pattern: Seq<char>, at: int)
    requires
        is_first_occurrence(text, pattern, at),
    ensures
        first_occurrence(text, pattern) == Some(at),
{
    lemma_first_occurrence(text, pattern);
    assert(contains(text, pattern));
    let chosen = first_occurrence(text, pattern)->0;
    assert(is_first_occurrence(text, pattern, chosen));
    if chosen < at {
        assert(!occurs_at(text, pattern, chosen));
    }
    if at < chosen {
        assert(!occurs_at(text, pattern, at));
    }
}

/// Among the positions of `c` up to `bound` there is a leftmost one.
proof fn lemma_least_index(text: Seq<char>, c: char, bound: int)
    requires
        0 <= bound < text.len(),
        text[bound] == c,
    ensures
        exists|at: int| is_first_index_of(text, c, at) && at <= bound,
    decreases bound,
{
    if exists|before: int| 0 <= before < bound && text[before] == c {
        let before = choose|before: int| 0 <= before < bound && text[before] == c;
        lemma_least_index(text, c, before);
    } else {
        assert(is_first_index_of(text, c, bound));
    }
}

/// `first_index_of` is the leftmost position of the character, and `None`
/// exactly where the character does not stand.
pub proof fn lemma_first_index_of(text: Seq<char>, c: char)
    ensures
        match first_index_of(text, c) {
            Some(at) => is_first_index_of(text, c, at),
            None => forall|at: int| 0 <= at < text.len() ==> text[at] != c,
        },
{
    if text.contains(c) {
        let some = choose|at: int| 0 <= at < text.len() && text[at] == c;
        lemma_least_index(text, c, some);
    }
}

/// A leftmost position is the one that `first_index_of` gives.
pub proof fn lemma_first_index_of_is(text: Seq<char>, c: char, at: int)
    requires
        is_first_index_of(text, c, at),
    ensures
        first_index_of(text, c) == Some(at),
{
    lemma_first_index_of(text, c);
    assert(text.contains(c));
    let chosen = first_index_of(text, c)->0;
    assert(is_first_index_of(text, c, chosen));
    if chosen < at {
        assert(text[chosen] != c);
    }
    if at < chosen {
        assert(text[at] != c);
    }
}

/// The characters of `s`, in order.
pub fn chars_of(s: &str) -> (out: Vec<char>)
    ensures
        out@ == s@,
{
    let mut out: Vec<char> = Vec::new();
    for c in it: s.chars()
        invariant
            it.seq() == s@,
            out@ == it.seq().take(it.index()),
    {
        out.push(c);
    }
    out
}

/// Whether `pattern` stands in `text` at `at`.
pub fn matches_at(text: &Vec<char>, pattern: &Vec<char>, at: usize) -> (found: bool)
    ensures
        found == occurs_at(text@, pattern@, at as int),
{
    let n: usize = text.len();
    let m: usize = pattern.len();
    if at > n || m > n - at {
        return false;
    }
    let mut k: usize = 0;
    while k < m
        invariant
            n == text@.len(),
            m == pattern@.len(),
            at + m <= n,
            k <= m,
            forall|j: int| 0 <= j < k ==> text@[at + j] == pattern@[j],
        decreases m - k,
    {
        if text[at + k] != pattern[k] {
            assert(text@.subrange(at as int, at + m)[k as int] != pattern@[k as int]);
            return false;
        }
        k += 1;
    }
    assert(text@.subrange(at as int, at + m) =~= pattern@);
    true
}

/// The leftmost position at which `pattern` stands in `text`.
pub fn find(text: &Vec<char>, pattern: &Vec<char>) -> (found: Option<usize>)
    ensures
        position_view(found) == first_occurrence(text@, pattern@),
{
    let n: usize = text.len();
    let m: usize = pattern.len();
    if m > n {
        proof {
            lemma_first_occurrence(text@, pattern@);
        }
        return None;
    }
    if m == 0 {
        proof {
            assert(text@.subrange(0, 0) =~= pattern@);
            lemma_first_occurrence_is(text@, pattern@, 0);
        }
        return Some(0);
    }
    let last: usize = n - m;
    let mut at: usize = 0;
    while at <= last
        invariant
            n == text@.len(),
            m == pattern@.len(),
            0 < m <= n,
            last == n - m,
            at <= last + 1,
            forall|before: int| 0 <= before < at ==> !occurs_at(text@, pattern@, before),
        decreases last + 1 - at,
    {
        if matches_at(text, pattern, at) {
            proof {
                lemma_first_occurrence_is(text@, pattern@, at as int);
            }
            return Some(at);
        }
        at += 1;
    }
    proof {
        lemma_first_occurrence(text@, pattern@);
    }
    None
}

/// The leftmost position at which `pattern` stands in `text`, where it is
/// known to stand at `known`.
pub fn find_up_to(text: &Vec<char>, pattern: &Vec<char>, known: usize) -> (at: usize)
    requires
        occurs_at(text@, pattern@, known as int),
    ensures
        first_occurrence(text@, pattern@) == Some(at as int),
        at <= known,
{
    let mut at: usize = 0;
    while at < known
        invariant
            at <= known,
            occurs_at(text@, pattern@, known as int),
            forall|before: int| 0 <= before < at ==> !occurs_at(text@, pattern@, before),
        ensures
            occurs_at(text@, pattern@, at as int),
        decreases known - at,
    {
        if matches_at(text, pattern, at) {
            break ;
        }
        at += 1;
    }
    proof {
        lemma_first_occurrence_is(text@, pattern@, at as int);
    }
    at
}

/// The leftmost position of `c` in `text`, where it is known to stand at
/// `known`.
pub fn position_up_to(text: &Vec<char>, c: char, known: usize) -> (at: usize)
    requires
        known < text.len(),
        text@[known as int] == c,
    ensures
        first_index_of(text@, c) == Some(at as int),
        at <= known,
{
    let mut at: usize = 0;
    while at < known
        invariant
            at <= known < text.len(),
            text@[known as int] == c,
            forall|before: int| 0 <= before < at ==> text@[before] != c,
        ensures
            text@[at as int] == c,
        decreases known - at,
    {
        if text[at] == c {
            break ;
        }
        at += 1;
    }
    proof {
        lemma_first_index_of_is(text@, c, at as int);
    }
    at
}

/// `s` without its characters from position `from` up to `to`.
pub fn without_range(s: &str, from: usize, to: usize) -> (out: String)
    requires
        from <= to <= s@.len(),
    ensures
        out@ == s@.subrange(0, from as int) + s@.subrange(to as int, s@.len() as int),
{
    let n: usize = s.unicode_len();
    let mut out = String::from_str(s.substring_char(0, from));
    out.append(s.substring_char(to, n));
    out
}

/// `s` with `piece` put in before position `at`, or at the end where `s` is
/// shorter than that.
pub fn with_insertion(s: &str, at: usize, piece: &str) -> (out: String)
    ensures
        out@ == insert_at(s@, at as int, piece@),
{
    let n: usize = s.unicode_len();
    let cut: usize = if at <= n {
        at
    } else {
        n
    };
    let mut out = String::from_str(s.substring_char(0, cut));
    out.append(piece);
    out.append(s.substring_char(cut, n));
    out
}

/// Whether `a` and `b` hold the same characters.
pub fn same_text(a: &str, b: &str) -> (same: bool)
    ensures
        same == (a@ == b@),
{
    let left = chars_of(a);
    let right = chars_of(b);
    if left.len() != right.len() {
        return false;
    }
    let mut at: usize = 0;
    while at < left.len()
        invariant
            left@ == a@,
            right@ == b@,
            left.len() == right.len(),
            at <= left.len(),
            forall|before: int| 0 <= before < at ==> left@[before] == right@[before],
        decreases left.len() - at,
    {
        if left[at] != right[at] {
            assert(a@[at as int] != b@[at as int]);
            return false;
        }
        at += 1;
    }
    assert(left@ =~= right@);
    true
}

/// The line separator of a written file.
pub const NEWLINE: &'static str = "\n";

/// The lines of `doc` with `separator` between each two.
pub open spec fn joined(doc: Seq<Seq<char>>, separator: Seq<char>) -> Seq<char>
    decreases doc.len(),
{
    if doc.len() == 0 {
        Seq::empty()
    } else if doc.len() == 1 {
        doc[0]
    } else {
        joined(doc.drop_last(), separator) + separator + doc.last()
    }
}

/// The text of a file that holds the lines of `doc`: the lines with one
/// newline between each two, and one newline at the end.
pub open spec fn rendered(doc: Seq<Seq<char>>) -> Seq<char> {
    joined(doc, NEWLINE@) + NEWLINE@
}

/// The text to write for `lines`.
pub fn render(lines: &Vec<String>) -> (contents: String)
    ensures
        contents@ == rendered(lines.deep_view()),
{
    let ghost doc = lines.deep_view();
    let mut contents = String::new();
    let mut index: usize = 0;
    assert(doc.take(0) =~= Seq::<Seq<char>>::empty());
    while index < lines.len()
        invariant
            index <= lines.len(),
            doc == lines.deep_view(),
            contents@ == joined(doc.take(index as int), NEWLINE@),
        decreases lines.len() - index,
    {
        let ghost so_far = contents@;
        if index > 0 {
            contents.append(NEWLINE);
        }
        contents.append(lines[index].as_str());
        proof {
            let next = doc.take(index + 1);
            assert(next.drop_last() =~= doc.take(index as int));
            assert(next.last() == lines[index as int]@);
            if index == 0 {
                assert(contents@ =~= next[0]);
            }
        }
        index += 1;
    }
    assert(doc.take(index as int) =~= doc);
    contents.append(NEWLINE);
    contents
}

/// The character of a decimal digit.
pub open spec fn digit(value: nat) -> char {
    if value == 0 {
        '0'
    } else if value == 1 {
        '1'
    } else if value == 2 {
        '2'
    } else if value == 3 {
        '3'
    } else if value == 4 {
        '4'
    } else if value == 5 {
        '5'
    } else if value == 6 {
        '6'
    } else if value == 7 {
        '7'
    } else if value == 8 {
        '8'
    } else {
        '9'
    }
}

/// The decimal numeral of `value`, without leading zeros.
pub open spec fn decimal(value: nat) -> Seq<char>
    decreases value,
{
    if value < 10 {
        seq![digit(value)]
    } else {
        decimal(value / 10).push(digit(value % 10))
    }
}

/// The numeral of one digit.
fn digit_text(value: u128) -> (text: &'static str)
    requires
        value < 10,
    ensures
        text@ == seq![digit(value as nat)],
{
    proof {
        reveal_strlit("0");
        reveal_strlit("1");
        reveal_strlit("2");
        reveal_strlit("3");
        reveal_strlit("4");
        reveal_strlit("5");
        reveal_strlit("6");
        reveal_strlit("7");
        reveal_strlit("8");
        reveal_strlit("9");
    }
    let text = if value == 0 {
        "0"
    } else if value == 1 {
        "1"
    } else if value == 2 {
        "2"
    } else if value == 3 {
        "3"
    } else if value == 4 {
        "4"
    } else if value == 5 {
        "5"
    } else if value == 6 {
        "6"
    } else if value == 7 {
        "7"
    } else if value == 8 {
        "8"
    } else {
        "9"
    };
    assert(text@ =~= seq![digit(value as nat)]);
    text
}

/// The decimal numeral of `value`.
pub fn decimal_text(value: u128) -> (text: String)
    ensures
        text@ == decimal(value as nat),
    decreases value,
{
    if value < 10 {
        String::from_str(digit_text(value))
    } else {
        let mut text = decimal_text(value / 10);
        text.append(digit_text(value % 10));
        assert(text@ =~= decimal((value / 10) as nat).push(digit((value % 10) as nat)));
        text
    }
}

} // verus!
