use vstd::prelude::*;

verus! {

/// Whether `a` and `b` are the same character once ASCII letters are folded to one case.
pub open spec fn same_ignoring_ascii_case(a: char, b: char) -> bool {
    ||| a == b
    ||| ('A' <= a <= 'Z' && b as u32 == a as u32 + 32)
    ||| ('A' <= b <= 'Z' && a as u32 == b as u32 + 32)
}

/// Whether two character sequences are equal once ASCII letters are folded to one case.
pub open spec fn eq_ignoring_ascii_case(a: Seq<char>, b: Seq<char>) -> bool {
    &&& a.len() == b.len()
    &&& forall|k: int| 0 <= k < a.len() ==> same_ignoring_ascii_case(#[trigger] a[k], b[k])
}

/// `i` is the position of the first `c` in `s`.
pub open spec fn is_first(s: Seq<char>, c: char, i: int) -> bool {
    &&& 0 <= i < s.len()
    &&& s[i] == c
    &&& forall|j: int| 0 <= j < i ==> #[trigger] s[j] != c
}

/// `i` is the position of the last `c` in `s`.
pub open spec fn is_last(s: Seq<char>, c: char, i: int) -> bool {
    &&& 0 <= i < s.len()
    &&& s[i] == c
    &&& forall|j: int| i < j < s.len() ==> #[trigger] s[j] != c
}

/// What stands before and after the first `c` in `s`; all of `s` and nothing when `c` is absent.
pub open spec fn split_once(s: Seq<char>, c: char) -> (Seq<char>, Seq<char>) {
    if exists|i: int| is_first(s, c, i) {
        let i = choose|i: int| is_first(s, c, i);
        (s.subrange(0, i), s.subrange(i + 1, s.len() as int))
    } else {
        (s, Seq::empty())
    }
}

/// What follows the last `c` in `s`; nothing when `c` is absent.
pub open spec fn after_last(s: Seq<char>, c: char) -> Seq<char> {
    if exists|i: int| is_last(s, c, i) {
        let i = choose|i: int| is_last(s, c, i);
        s.subrange(i + 1, s.len() as int)
    } else {
        Seq::empty()
    }
}

/// A separator between the tokens of a header list.
pub open spec fn is_list_separator(c: char) -> bool {
    c == ',' || c == ' ' || c == '\t'
}

/// `t` stands in `s` at `i` as a whole token of a list, ignoring ASCII case.
pub open spec fn token_at(s: Seq<char>, t: Seq<char>, i: int) -> bool {
    &&& 0 <= i
    &&& i + t.len() <= s.len()
    &&& (i == 0 || is_list_separator(s[i - 1]))
    &&& (i + t.len() == s.len() || is_list_separator(s[i + t.len()]))
    &&& eq_ignoring_ascii_case(s.subrange(i, i + t.len()), t)
}

/// Whether the comma or space separated list `s` holds the token `t`, ignoring ASCII case.
pub open spec fn list_contains(s: Seq<char>, t: Seq<char>) -> bool {
    exists|i: int| token_at(s, t, i)
}

proof fn lemma_first_unique(s: Seq<char>, c: char, i: int, j: int)
    requires
        is_first(s, c, i),
        is_first(s, c, j),
    ensures
        i == j,
{
    if i < j {
        assert(s[i] != c);
    } else if j < i {
        assert(s[j] != c);
    }
}

proof fn lemma_last_unique(s: Seq<char>, c: char, i: int, j: int)
    requires
        is_last(s, c, i),
        is_last(s, c, j),
    ensures
        i == j,
{
    if i < j {
        assert(s[j] != c);
    } else if j < i {
        assert(s[i] != c);
    }
}

/// The characters of `s`, in order.
pub fn chars_of(s: &str) -> (r: Vec<char>)
    ensures
        r@ == s@,
{
    let n = s.unicode_len();
    let mut r: Vec<char> = Vec::new();
    let mut i: usize = 0;
    while i < n
        invariant
            n == s@.len(),
            i <= n,
            r@ == s@.subrange(0, i as int),
        decreases n - i,
    {
        r.push(s.get_char(i));
        i = i + 1;
    }
    r
}

/// Whether two strings hold the same characters.
pub fn str_eq(a: &str, b: &str) -> (r: bool)
    ensures
        r == (a@ == b@),
{
    let x = chars_of(a);
    let y = chars_of(b);
    if x.len() != y.len() {
        return false;
    }
    let mut i: usize = 0;
    while i < x.len()
        invariant
            x@ == a@,
            y@ == b@,
            x.len() == y.len(),
            i <= x.len(),
            forall|j: int| 0 <= j < i ==> x@[j] == y@[j],
        decreases x.len() - i,
    {
        if x[i] != y[i] {
            return false;
        }
        i = i + 1;
    }
    assert(a@ =~= b@);
    true
}

/// Whether two characters are equal once ASCII letters are folded to one case.
pub fn char_eq_ignore_ascii_case(a: char, b: char) -> (r: bool)
    ensures
        r == same_ignoring_ascii_case(a, b),
{
    if a == b {
        return true;
    }
    let x = a as u32;
    let y = b as u32;
    ('A' <= a && a <= 'Z' && y == x + 32) || ('A' <= b && b <= 'Z' && x == y + 32)
}

/// Whether `s` and `t` are equal once ASCII letters are folded to one case.
pub fn eq_ignore_ascii_case(s: &str, t: &str) -> (r: bool)
    ensures
        r == eq_ignoring_ascii_case(s@, t@),
{
    let x = chars_of(s);
    let y = chars_of(t);
    if x.len() != y.len() {
        return false;
    }
    let mut i: usize = 0;
    while i < x.len()
        invariant
            x@ == s@,
            y@ == t@,
            x.len() == y.len(),
            i <= x.len(),
            forall|k: int| 0 <= k < i ==> same_ignoring_ascii_case(#[trigger] x@[k], y@[k]),
        decreases x.len() - i,
    {
        if !char_eq_ignore_ascii_case(x[i], y[i]) {
            return false;
        }
        i = i + 1;
    }
    true
}

/// The position of the first `c` in `s`, if any.
pub fn find_first(s: &Vec<char>, c: char) -> (r: Option<usize>)
    ensures
        match r {
            Some(i) => is_first(s@, c, i as int),
            None => forall|j: int| 0 <= j < s@.len() ==> s@[j] != c,
        },
{
    let mut i: usize = 0;
    while i < s.len()
        invariant
            i <= s@.len(),
            forall|j: int| 0 <= j < i ==> s@[j] != c,
        decreases s@.len() - i,
    {
        if s[i] == c {
            return Some(i);
        }
        i = i + 1;
    }
    None
}

/// The position of the last `c` in `s`, if any.
pub fn find_last(s: &Vec<char>, c: char) -> (r: Option<usize>)
    ensures
        match r {
            Some(i) => is_last(s@, c, i as int),
            None => forall|j: int| 0 <= j < s@.len() ==> s@[j] != c,
        },
{
    let mut i: usize = s.len();
    while i > 0
        invariant
            i <= s@.len(),
            forall|j: int| i <= j < s@.len() ==> s@[j] != c,
        decreases i,
    {
        if s[i - 1] == c {
            return Some(i - 1);
        }
        i = i - 1;
    }
    None
}

/// Whether `c` occurs in `s`.
pub fn contains_char(s: &str, c: char) -> (r: bool)
    ensures
        r == s@.contains(c),
{
    let v = chars_of(s);
    match find_first(&v, c) {
        Some(i) => {
            assert(s@[i as int] == c);
            true
        },
        None => {
            assert(!s@.contains(c));
            false
        },
    }
}

/// Splits `s` at the first `c`; `None` when `c` does not occur.
pub fn split_once_str(s: &str, c: char) -> (r: Option<(&str, &str)>)
    ensures
        r is Some <==> s@.contains(c),
        match r {
            Some((before, after)) => split_once(s@, c) == (before@, after@),
            None => split_once(s@, c) == (s@, Seq::<char>::empty()),
        },
{
    let v = chars_of(s);
    let n = v.len();
    match find_first(&v, c) {
        Some(i) => {
            proof {
                assert forall|j: int| is_first(s@, c, j) implies j == i by {
                    lemma_first_unique(s@, c, i as int, j);
                }
            }
            let before = s.substring_char(0, i);
            let after = s.substring_char(i + 1, n);
            Some((before, after))
        },
        None => {
            assert(!s@.contains(c));
            None
        },
    }
}

/// What follows the last `c` in `s`; an empty string when `c` does not occur.
pub fn after_last_str(s: &str, c: char) -> (r: &str)
    ensures
        r@ == after_last(s@, c),
{
    let v = chars_of(s);
    let n = v.len();
    match find_last(&v, c) {
        Some(i) => {
            proof {
                assert forall|j: int| is_last(s@, c, j) implies j == i by {
                    lemma_last_unique(s@, c, i as int, j);
                }
            }
            s.substring_char(i + 1, n)
        },
        None => {
            s.substring_char(0, 0)
        },
    }
}

/// Whether `c` separates the tokens of a header list.
fn list_separator(c: char) -> (r: bool)
    ensures
        r == is_list_separator(c),
{
    c == ',' || c == ' ' || c == '\t'
}

/// Whether `t` stands in `s` at `i` as a whole token, ignoring ASCII case.
fn token_at_exec(s: &Vec<char>, t: &Vec<char>, i: usize) -> (r: bool)
    requires
        i + t@.len() <= s@.len(),
    ensures
        r == token_at(s@, t@, i as int),
{
    let n = s.len();
    let end = i + t.len();
    if i > 0 && !list_separator(s[i - 1]) {
        return false;
    }
    if end < s.len() && !list_separator(s[end]) {
        return false;
    }
    let mut k: usize = 0;
    while k < t.len()
        invariant
            end == i + t@.len(),
            end <= s@.len(),
            k <= t@.len(),
            forall|m: int|
                0 <= m < k ==> same_ignoring_ascii_case(#[trigger] s@.subrange(i as int, end as int)[m], t@[m]),
        decreases t@.len() - k,
    {
        if !char_eq_ignore_ascii_case(s[i + k], t[k]) {
            assert(!same_ignoring_ascii_case(s@.subrange(i as int, end as int)[k as int], t@[k as int]));
            return false;
        }
        k = k + 1;
    }
    true
}

/// Whether the comma or space separated list `s` holds the token `t`, ignoring ASCII case.
pub fn header_list_contains(s: &str, t: &str) -> (r: bool)
    ensures
        r == list_contains(s@, t@),
{
    let sv = chars_of(s);
    let tv = chars_of(t);
    if tv.len() > sv.len() {
        return false;
    }
    let last = sv.len() - tv.len();
    let mut i: usize = 0;
    loop
        invariant
            sv@ == s@,
            tv@ == t@,
            last == sv@.len() - tv@.len(),
            i <= last,
            forall|j: int| 0 <= j < i ==> !token_at(s@, t@, j),
        decreases last - i,
    {
        if token_at_exec(&sv, &tv, i) {
            return true;
        }
        if i == last {
            return false;
        }
        i = i + 1;
    }
}

} // verus!
