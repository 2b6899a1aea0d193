//! Text as the ledger reads it: the order of two texts, and whether one
//! occurs inside another.
use vstd::prelude::*;
use vstd::string::*;

verus! {

/// Whether `a` comes before or equals `b` from position `i` on, given that
/// both agree before `i`: the first position where they differ decides, by
/// the characters' code points; where none differs the shorter text is first.
pub open spec fn ordered_from(a: Seq<char>, b: Seq<char>, i: int) -> bool
    decreases a.len() - i,
{
    if i < 0 || i >= a.len() {
        true
    } else if i >= b.len() {
        false
    } else if a[i] != b[i] {
        (a[i] as u32) < (b[i] as u32)
    } else {
        ordered_from(a, b, i + 1)
    }
}

/// `a <= b` in the order of a dictionary over code points. Dates written
/// as `YYYY-MM-DD` are ordered by it as the days they name.
pub open spec fn text_le(a: Seq<char>, b: Seq<char>) -> bool {
    ordered_from(a, b, 0)
}

/// The code point of a character with the letters `A` to `Z` taken to
/// `a` to `z`.
pub open spec fn folded(c: char) -> int {
    let n = c as u32 as int;
    if 65 <= n <= 90 { n + 32 } else { n }
}

/// Whether `needle` stands in `hay` at position `at`, letters of either
/// case of the ASCII alphabet taken as equal.
pub open spec fn occurs_at(hay: Seq<char>, needle: Seq<char>, at: int) -> bool {
    &&& 0 <= at
    &&& at + needle.len() <= hay.len()
    &&& forall|j: int| 0 <= j < needle.len() ==> folded(#[trigger] hay[at + j]) == folded(needle[j])
}

/// Whether `needle` occurs somewhere in `hay`. The empty text occurs in
/// every text.
pub open spec fn text_contains(hay: Seq<char>, needle: Seq<char>) -> bool {
    exists|at: int| occurs_at(hay, needle, at)
}

/// The characters of a text, in order.
pub fn chars_of(s: &str) -> (v: Vec<char>)
    ensures
        v@ == s@,
{
    let n = s.unicode_len();
    let mut v: Vec<char> = Vec::new();
    let mut i: usize = 0;
    while i < n
        invariant
            i <= n,
            n == s@.len(),
            v@ == s@.subrange(0, i as int),
        decreases n - i,
    {
        let c = s.get_char(i);
        v.push(c);
        i = i + 1;
        assert(v@ == s@.subrange(0, i as int));
    }
    assert(s@.subrange(0, n as int) == s@);
    v
}

/// Compares two texts given by their characters.
pub fn chars_le(a: &Vec<char>, b: &Vec<char>) -> (r: bool)
    ensures
        r == text_le(a@, b@),
{
    let mut i: usize = 0;
    while i < a.len() && i < b.len()
        invariant
            i <= a.len(),
            i <= b.len(),
            text_le(a@, b@) == ordered_from(a@, b@, i as int),
        decreases a.len() - i,
    {
        let x = a[i];
        let y = b[i];
        if x != y {
            return (x as u32) < (y as u32);
        }
        i = i + 1;
    }
    i >= a.len()
}

/// Compares two texts: `a <= b`.
pub fn text_at_most(a: &str, b: &str) -> (r: bool)
    ensures
        r == text_le(a@, b@),
{
    let x = chars_of(a);
    let y = chars_of(b);
    chars_le(&x, &y)
}

fn fold_char(c: char) -> (n: u32)
    ensures
        n == folded(c),
{
    let n: u32 = c as u32;
    if 65 <= n && n <= 90 { n + 32 } else { n }
}

fn matches_here(hay: &Vec<char>, needle: &Vec<char>, at: usize) -> (r: bool)
    requires
        at + needle.len() <= hay.len(),
    ensures
        r == occurs_at(hay@, needle@, at as int),
{
    let mut j: usize = 0;
    while j < needle.len()
        invariant
            j <= needle.len(),
            at + needle.len() <= hay.len(),
            forall|k: int| 0 <= k < j ==> folded(#[trigger] hay@[at + k]) == folded(needle@[k]),
        decreases needle.len() - j,
    {
        if fold_char(hay[at + j]) != fold_char(needle[j]) {
            assert(folded(hay@[at + j]) != folded(needle@[j as int]));
            return false;
        }
        j = j + 1;
    }
    true
}

/// Searches `hay` for `needle`, letters of either ASCII case taken as equal.
pub fn contains_text(hay: &str, needle: &str) -> (r: bool)
    ensures
        r == text_contains(hay@, needle@),
{
    let h = chars_of(hay);
    let n = chars_of(needle);
    if n.len() > h.len() {
        assert(forall|at: int| !occurs_at(h@, n@, at));
        return false;
    }
    let last: usize = h.len() - n.len();
    let mut at: usize = 0;
    while at <= last
        invariant
            at <= last + 1,
            last == h.len() - n.len(),
            n.len() <= h.len(),
            h@ == hay@,
            n@ == needle@,
            forall|k: int| 0 <= k < at ==> !occurs_at(h@, n@, k),
        decreases last + 1 - at,
    {
        if matches_here(&h, &n, at) {
            return true;
        }
        at = at + 1;
    }
    assert(forall|k: int| !occurs_at(h@, n@, k));
    false
}

/// A copy of an optional text.
pub fn copy_text(t: &Option<String>) -> (r: Option<String>)
    ensures
        r == *t,
{
    match t {
        Some(s) => Some(s.clone()),
        None => None,
    }
}

/// Of two texts one comes before the other or equals it.
pub proof fn order_is_total(a: Seq<char>, b: Seq<char>, i: int)
    requires
        0 <= i,
    ensures
        ordered_from(a, b, i) || ordered_from(b, a, i),
    decreases a.len() - i,
{
    if i < a.len() && i < b.len() {
        if a[i] == b[i] {
            order_is_total(a, b, i + 1);
        } else {
            vstd::utf8::char_u32_cast(a[i], a[i] as u32);
            vstd::utf8::char_u32_cast(b[i], b[i] as u32);
        }
    }
}

/// What comes before a text that comes before a third comes before the
/// third.
pub proof fn order_is_transitive(a: Seq<char>, b: Seq<char>, c: Seq<char>, i: int)
    requires
        0 <= i,
        ordered_from(a, b, i),
        ordered_from(b, c, i),
    ensures
        ordered_from(a, c, i),
    decreases a.len() - i,
{
    if i < a.len() {
        if a[i] == b[i] && b[i] == c[i] {
            order_is_transitive(a, b, c, i + 1);
        }
    }
}

/// Two texts that agree before `i` and come before each other from `i`
/// on are the same text.
pub proof fn order_is_antisymmetric(a: Seq<char>, b: Seq<char>, i: int)
    requires
        0 <= i,
        forall|j: int| 0 <= j < i ==> a[j] == b[j],
        i <= a.len(),
        i <= b.len(),
        ordered_from(a, b, i),
        ordered_from(b, a, i),
    ensures
        a == b,
    decreases a.len() - i,
{
    if i < a.len() {
        assert(a[i] == b[i]);
        assert forall|j: int| 0 <= j < i + 1 implies a[j] == b[j] by {}
        order_is_antisymmetric(a, b, i + 1);
    } else {
        assert(a =~= b);
    }
}

} // verus!
