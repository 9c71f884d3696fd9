use vstd::prelude::*;

verus! {

broadcast use vstd::string::group_string_axioms;

// ---------------------------------------------------------------------------
// Models of the string operations the matcher is built from
// ---------------------------------------------------------------------------

/// `s` with every leading `c` removed.
pub open spec fn trim_start_char(s: Seq<char>, c: char) -> Seq<char>
    decreases s.len(),
{
    if s.len() > 0 && s[0] == c {
        trim_start_char(s.drop_first(), c)
    } else {
        s
    }
}

/// `s` with every trailing `c` removed.
pub open spec fn trim_end_char(s: Seq<char>, c: char) -> Seq<char>
    decreases s.len(),
{
    if s.len() > 0 && s.last() == c {
        trim_end_char(s.drop_last(), c)
    } else {
        s
    }
}

/// `s` with every leading and every trailing `c` removed.
pub open spec fn trim_char(s: Seq<char>, c: char) -> Seq<char> {
    trim_end_char(trim_start_char(s, c), c)
}

/// The pieces of `s` between the occurrences of `c`: one more piece than
/// there are occurrences, and a single empty piece for an empty `s`.
pub open spec fn split_char(s: Seq<char>, c: char) -> Seq<Seq<char>>
    decreases s.len(),
{
    if s.len() == 0 {
        seq![Seq::<char>::empty()]
    } else {
        let rest = split_char(s.drop_last(), c);
        if s.last() == c {
            rest.push(Seq::<char>::empty())
        } else {
            rest.update(rest.len() - 1, rest.last().push(s.last()))
        }
    }
}

/// `needle` occurs in `hay` starting at position `i`.
pub open spec fn occurs_at(needle: Seq<char>, hay: Seq<char>, i: int) -> bool {
    0 <= i && i + needle.len() <= hay.len() && hay.subrange(i, i + needle.len()) == needle
}

/// `needle` occurs somewhere in `hay`.
pub open spec fn is_substring(needle: Seq<char>, hay: Seq<char>) -> bool {
    exists|i: int| occurs_at(needle, hay, i)
}

/// The position of the first `c` in `s`, or the length of `s` if there is none.
pub open spec fn first_index_of(s: Seq<char>, c: char) -> nat
    decreases s.len(),
{
    if s.len() == 0 {
        0
    } else if s[0] == c {
        0
    } else {
        1 + first_index_of(s.drop_first(), c)
    }
}

/// The parts of `s` before and after its first `c`, if it has one.
pub open spec fn split_once_char(s: Seq<char>, c: char) -> Option<(Seq<char>, Seq<char>)> {
    let i = first_index_of(s, c);
    if i < s.len() {
        Some((s.take(i as int), s.skip(i as int + 1)))
    } else {
        None
    }
}

// ---------------------------------------------------------------------------
// Lemmas
// ---------------------------------------------------------------------------

pub proof fn lemma_trim_start(s: Seq<char>, c: char, a: int)
    requires
        0 <= a <= s.len(),
        forall|i: int| 0 <= i < a ==> s[i] == c,
        a == s.len() || s[a] != c,
    ensures
        trim_start_char(s, c) == s.subrange(a, s.len() as int),
    decreases a,
{
    if a == 0 {
        assert(s.subrange(0, s.len() as int) =~= s);
    } else {
        let t = s.drop_first();
        assert forall|i: int| 0 <= i < a - 1 implies t[i] == c by {
            assert(t[i] == s[i + 1]);
        }
        if a < s.len() {
            assert(t[a - 1] == s[a]);
        }
        lemma_trim_start(t, c, a - 1);
        assert(t.subrange(a - 1, t.len() as int) =~= s.subrange(a, s.len() as int));
    }
}

pub proof fn lemma_trim_end(s: Seq<char>, c: char, b: int)
    requires
        0 <= b <= s.len(),
        forall|i: int| b <= i < s.len() ==> s[i] == c,
        b == 0 || s[b - 1] != c,
    ensures
        trim_end_char(s, c) == s.subrange(0, b),
    decreases s.len() - b,
{
    if b == s.len() {
        assert(s.subrange(0, b) =~= s);
    } else {
        let t = s.drop_last();
        assert forall|i: int| b <= i < t.len() implies t[i] == c by {
            assert(t[i] == s[i]);
        }
        if b > 0 {
            assert(t[b - 1] == s[b - 1]);
        }
        lemma_trim_end(t, c, b);
        assert(t.subrange(0, b) =~= s.subrange(0, b));
    }
}

pub proof fn lemma_split_nonempty(s: Seq<char>, c: char)
    ensures
        split_char(s, c).len() >= 1,
    decreases s.len(),
{
    if s.len() > 0 {
        lemma_split_nonempty(s.drop_last(), c);
    }
}

pub proof fn lemma_first_index(s: Seq<char>, c: char, i: int)
    requires
        0 <= i <= s.len(),
        forall|j: int| 0 <= j < i ==> s[j] != c,
        i == s.len() || s[i] == c,
    ensures
        first_index_of(s, c) == i,
    decreases i,
{
    if i > 0 {
        let t = s.drop_first();
        assert forall|j: int| 0 <= j < i - 1 implies t[j] != c by {
            assert(t[j] == s[j + 1]);
        }
        if i < s.len() {
            assert(t[i - 1] == s[i]);
        }
        assert(s[0] != c);
        lemma_first_index(t, c, i - 1);
    }
}

// ---------------------------------------------------------------------------
// Executable operations
// ---------------------------------------------------------------------------

/// The characters of `s`, in order.
pub fn chars_of(s: &str) -> (r: Vec<char>)
    ensures
        r@ == s@,
{
    let mut r: Vec<char> = Vec::new();
    for c in it: s.chars()
        invariant
            r@ == it.seq().take(it.index() as int),
            it.seq() == s@,
    {
        r.push(c);
    }
    r
}

/// The characters of `s` from position `from` up to position `to`, as a new string.
pub fn substring(s: &str, from: usize, to: usize) -> (r: String)
    requires
        from <= to <= s@.len(),
    ensures
        r@ == s@.subrange(from as int, to as int),
{
    s.substring_char(from, to).to_owned()
}

/// The bounds of `chars` once every leading and trailing `c` is removed.
pub fn trim_bounds(chars: &Vec<char>, c: char) -> (r: (usize, usize))
    ensures
        r.0 <= r.1 <= chars@.len(),
        chars@.subrange(r.0 as int, r.1 as int) == trim_char(chars@, c),
{
    let n = chars.len();
    let mut a: usize = 0;
    while a < n && chars[a] == c
        invariant
            a <= n,
            n == chars@.len(),
            forall|i: int| 0 <= i < a ==> chars@[i] == c,
        decreases n - a,
    {
        a = a + 1;
    }
    let mut b: usize = n;
    while b > a && chars[b - 1] == c
        invariant
            a <= b <= n,
            n == chars@.len(),
            forall|i: int| b <= i < n ==> chars@[i] == c,
        decreases b,
    {
        b = b - 1;
    }
    proof {
        let s = chars@;
        lemma_trim_start(s, c, a as int);
        let t = s.subrange(a as int, n as int);
        assert forall|i: int| b - a <= i < t.len() implies t[i] == c by {
            assert(t[i] == s[a + i]);
        }
        if b > a {
            assert(t[b - a - 1] == s[b - 1]);
        }
        lemma_trim_end(t, c, b - a);
        assert(t.subrange(0, b - a) =~= s.subrange(a as int, b as int));
    }
    (a, b)
}

/// The bounds of the pieces of `chars[lo..hi]` between the occurrences of `c`.
pub fn split_bounds(chars: &Vec<char>, lo: usize, hi: usize, c: char) -> (r: Vec<(usize, usize)>)
    requires
        lo <= hi <= chars@.len(),
    ensures
        r@.len() == split_char(chars@.subrange(lo as int, hi as int), c).len(),
        forall|j: int|
            0 <= j < r@.len() ==> lo <= (#[trigger] r@[j]).0 <= r@[j].1 <= hi && chars@.subrange(
                r@[j].0 as int,
                r@[j].1 as int,
            ) == split_char(chars@.subrange(lo as int, hi as int), c)[j],
{
    let mut ranges: Vec<(usize, usize)> = Vec::new();
    let mut start: usize = lo;
    let mut i: usize = lo;
    assert(chars@.subrange(lo as int, lo as int) =~= Seq::<char>::empty());
    while i < hi
        invariant
            lo <= start <= i <= hi,
            hi <= chars@.len(),
            split_char(chars@.subrange(lo as int, i as int), c).len() == ranges@.len() + 1,
            forall|j: int|
                0 <= j < ranges@.len() ==> lo <= (#[trigger] ranges@[j]).0 <= ranges@[j].1 <= i
                    && chars@.subrange(ranges@[j].0 as int, ranges@[j].1 as int) == split_char(
                    chars@.subrange(lo as int, i as int),
                    c,
                )[j],
            split_char(chars@.subrange(lo as int, i as int), c).last() == chars@.subrange(
                start as int,
                i as int,
            ),
        decreases hi - i,
    {
        let ghost prev = split_char(chars@.subrange(lo as int, i as int), c);
        let ghost s1 = chars@.subrange(lo as int, i + 1);
        assert(s1.drop_last() =~= chars@.subrange(lo as int, i as int));
        assert(s1.last() == chars@[i as int]);
        if chars[i] == c {
            ranges.push((start, i));
            start = i + 1;
            assert(chars@.subrange(start as int, i + 1) =~= Seq::<char>::empty());
        } else {
            assert(chars@.subrange(start as int, i + 1) =~= chars@.subrange(start as int, i as int).push(
                chars@[i as int],
            ));
        }
        i = i + 1;
    }
    ranges.push((start, hi));
    ranges
}

/// The position of the first `c` in `chars[lo..hi]`, counted from `lo`; `hi - lo` when there is none.
pub fn find_char(chars: &Vec<char>, lo: usize, hi: usize, c: char) -> (r: usize)
    requires
        lo <= hi <= chars@.len(),
    ensures
        r == first_index_of(chars@.subrange(lo as int, hi as int), c),
        r <= hi - lo,
{
    let mut i: usize = lo;
    while i < hi && chars[i] != c
        invariant
            lo <= i <= hi,
            hi <= chars@.len(),
            forall|j: int| lo <= j < i ==> chars@[j] != c,
        decreases hi - i,
    {
        i = i + 1;
    }
    proof {
        let s = chars@.subrange(lo as int, hi as int);
        assert forall|j: int| 0 <= j < i - lo implies s[j] != c by {
            assert(s[j] == chars@[lo + j]);
        }
        if i < hi {
            assert(s[i - lo] == chars@[i as int]);
        }
        lemma_first_index(s, c, i - lo);
    }
    i - lo
}

/// Whether `a[a_lo..a_hi]` and `b[b_lo..b_hi]` hold the same characters.
pub fn ranges_equal(a: &Vec<char>, a_lo: usize, a_hi: usize, b: &Vec<char>, b_lo: usize, b_hi: usize) -> (r: bool)
    requires
        a_lo <= a_hi <= a@.len(),
        b_lo <= b_hi <= b@.len(),
    ensures
        r == (a@.subrange(a_lo as int, a_hi as int) == b@.subrange(b_lo as int, b_hi as int)),
{
    if a_hi - a_lo != b_hi - b_lo {
        assert(a@.subrange(a_lo as int, a_hi as int).len() != b@.subrange(b_lo as int, b_hi as int).len());
        return false;
    }
    let n = a_hi - a_lo;
    let mut k: usize = 0;
    while k < n
        invariant
            k <= n,
            n == a_hi - a_lo,
            n == b_hi - b_lo,
            a_hi <= a@.len(),
            b_hi <= b@.len(),
            forall|j: int|
                0 <= j < k ==> #[trigger] a@.subrange(a_lo as int, a_hi as int)[j] == b@.subrange(
                    b_lo as int,
                    b_hi as int,
                )[j],
        decreases n - k,
    {
        if a[a_lo + k] != b[b_lo + k] {
            assert(a@.subrange(a_lo as int, a_hi as int)[k as int] != b@.subrange(b_lo as int, b_hi as int)[k as int]);
            return false;
        }
        k = k + 1;
    }
    assert(a@.subrange(a_lo as int, a_hi as int) =~= b@.subrange(b_lo as int, b_hi as int));
    true
}

/// Whether `needle` occurs in `hay`.
pub fn contains_chars(hay: &Vec<char>, needle: &Vec<char>) -> (r: bool)
    ensures
        r == is_substring(needle@, hay@),
{
    let h = hay.len();
    let n = needle.len();
    if n > h {
        assert forall|i: int| !occurs_at(needle@, hay@, i) by {}
        return false;
    }
    if n == 0 {
        assert(hay@.subrange(0, 0) =~= needle@);
        assert(occurs_at(needle@, hay@, 0));
        return true;
    }
    let last = h - n;
    let mut i: usize = 0;
    while i <= last
        invariant
            last == h - n,
            h == hay@.len(),
            n == needle@.len(),
            1 <= n <= h,
            forall|j: int| 0 <= j < i ==> !occurs_at(needle@, hay@, j),
        decreases last + 1 - i,
    {
        if ranges_equal(hay, i, i + n, needle, 0, n) {
            assert(needle@.subrange(0, n as int) =~= needle@);
            assert(occurs_at(needle@, hay@, i as int));
            return true;
        }
        assert(needle@.subrange(0, n as int) =~= needle@);
        i = i + 1;
    }
    false
}

/// Whether `needle` occurs in `hay`.
pub fn contains_str(hay: &str, needle: &str) -> (r: bool)
    ensures
        r == is_substring(needle@, hay@),
{
    let h = chars_of(hay);
    let n = chars_of(needle);
    contains_chars(&h, &n)
}

} // verus!
