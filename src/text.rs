use vstd::prelude::*;

verus! {

/// Characters with the Unicode `White_Space` property.
pub open spec fn is_space(c: char) -> bool {
    let u = c as u32;
    (0x9 <= u && u <= 0xd) || u == 0x20 || u == 0x85 || u == 0xa0 || u == 0x1680 || (0x2000 <= u
        && u <= 0x200a) || u == 0x2028 || u == 0x2029 || u == 0x202f || u == 0x205f || u == 0x3000
}

pub fn is_space_char(c: char) -> (r: bool)
    ensures
        r == is_space(c),
{
    let u = c as u32;
    (0x9 <= u && u <= 0xd) || u == 0x20 || u == 0x85 || u == 0xa0 || u == 0x1680 || (0x2000 <= u
        && u <= 0x200a) || u == 0x2028 || u == 0x2029 || u == 0x202f || u == 0x205f || u == 0x3000
}

pub open spec fn trim_start(s: Seq<char>) -> Seq<char>
    decreases s.len(),
{
    if s.len() > 0 && is_space(s[0]) {
        trim_start(s.drop_first())
    } else {
        s
    }
}

pub open spec fn trim_end(s: Seq<char>) -> Seq<char>
    decreases s.len(),
{
    if s.len() > 0 && is_space(s.last()) {
        trim_end(s.drop_last())
    } else {
        s
    }
}

/// `s` without its leading and trailing white space.
pub open spec fn trim(s: Seq<char>) -> Seq<char> {
    trim_end(trim_start(s))
}

/// The pieces of `s` between occurrences of `sep`; `n` separators give `n + 1` pieces.
pub open spec fn split(s: Seq<char>, sep: char) -> Seq<Seq<char>>
    decreases s.len(),
{
    if s.len() == 0 {
        seq![Seq::empty()]
    } else {
        let prev = split(s.drop_last(), sep);
        if s.last() == sep {
            prev.push(Seq::empty())
        } else {
            prev.update(prev.len() - 1, prev.last().push(s.last()))
        }
    }
}

proof fn lemma_split_nonempty(s: Seq<char>, sep: char)
    ensures
        split(s, sep).len() >= 1,
    decreases s.len(),
{
    if s.len() > 0 {
        lemma_split_nonempty(s.drop_last(), sep);
    }
}

/// `i` is the first position of `c` in `t`.
pub open spec fn first_at(t: Seq<char>, c: char, i: int) -> bool {
    0 <= i < t.len() && t[i] == c && forall|j: int| 0 <= j < i ==> t[j] != c
}

/// Position of the first `c` in `t`, if any.
pub open spec fn find(t: Seq<char>, c: char) -> Option<int> {
    if exists|i: int| first_at(t, c, i) {
        Some(choose|i: int| first_at(t, c, i))
    } else {
        None
    }
}

/// Bounds, in characters, of each piece of `s` split at `sep`.
pub fn split_spans(s: &str, sep: char) -> (r: Vec<(usize, usize)>)
    ensures
        r.len() == split(s@, sep).len(),
        forall|k: int| 0 <= k < r.len() ==> (#[trigger] r[k]).0 <= r[k].1 <= s@.len(),
        forall|k: int|
            0 <= k < r.len() ==> s@.subrange(r[k].0 as int, r[k].1 as int) == #[trigger] split(
                s@,
                sep,
            )[k],
{
    let n = s.unicode_len();
    let mut r: Vec<(usize, usize)> = Vec::new();
    let mut start: usize = 0;
    let mut i: usize = 0;
    assert(s@.subrange(0, 0) =~= Seq::<char>::empty());
    while i < n
        invariant
            n == s@.len(),
            start <= i <= n,
            r.len() + 1 == split(s@.subrange(0, i as int), sep).len(),
            split(s@.subrange(0, i as int), sep).last() == s@.subrange(start as int, i as int),
            forall|k: int| 0 <= k < r.len() ==> (#[trigger] r[k]).0 <= r[k].1 <= i,
            forall|k: int|
                0 <= k < r.len() ==> s@.subrange(r[k].0 as int, r[k].1 as int)
                    == #[trigger] split(s@.subrange(0, i as int), sep)[k],
        decreases n - i,
    {
        let c = s.get_char(i);
        let ghost prev = split(s@.subrange(0, i as int), sep);
        let ghost old_len = r.len();
        proof {
            lemma_split_nonempty(s@.subrange(0, i as int), sep);
        }
        assert(s@.subrange(0, i + 1).drop_last() =~= s@.subrange(0, i as int));
        assert(s@.subrange(0, i + 1).last() == c);
        if c == sep {
            r.push((start, i));
            start = i + 1;
            assert(s@.subrange(start as int, i + 1) =~= Seq::<char>::empty());
        } else {
            assert(s@.subrange(start as int, i as int).push(c) =~= s@.subrange(
                start as int,
                i + 1,
            ));
        }
        i = i + 1;
        proof {
            let cur = split(s@.subrange(0, i as int), sep);
            assert(s@.subrange(0, i as int).drop_last() =~= s@.subrange(0, i - 1));
            if c == sep {
                assert(cur == prev.push(Seq::empty()));
            } else {
                assert(cur == prev.update(prev.len() - 1, prev.last().push(c)));
            }
            assert forall|k: int| 0 <= k < r.len() implies s@.subrange(
                r[k].0 as int,
                r[k].1 as int,
            ) == #[trigger] cur[k] by {
                if k < old_len {
                    assert(cur[k] == prev[k]);
                }
            }
        }
    }
    assert(s@.subrange(0, n as int) =~= s@);
    let ghost pieces = split(s@, sep);
    let ghost old_len = r.len();
    r.push((start, n));
    assert forall|k: int| 0 <= k < r.len() implies s@.subrange(
        r[k].0 as int,
        r[k].1 as int,
    ) == #[trigger] pieces[k] by {
        if k < old_len {
            assert(split(s@.subrange(0, n as int), sep)[k] == pieces[k]);
        }
    }
    r
}

/// Bounds of the trimmed piece `s[lo..hi]`.
pub fn trim_span(s: &str, lo: usize, hi: usize) -> (r: (usize, usize))
    requires
        lo <= hi <= s@.len(),
    ensures
        lo <= r.0 <= r.1 <= hi,
        s@.subrange(r.0 as int, r.1 as int) == trim(s@.subrange(lo as int, hi as int)),
{
    let mut a = lo;
    while a < hi && is_space_char(s.get_char(a))
        invariant
            lo <= a <= hi <= s@.len(),
            trim_start(s@.subrange(a as int, hi as int)) == trim_start(
                s@.subrange(lo as int, hi as int),
            ),
        decreases hi - a,
    {
        assert(s@.subrange(a as int, hi as int).drop_first() =~= s@.subrange(a + 1, hi as int));
        a = a + 1;
    }
    assert(trim_start(s@.subrange(a as int, hi as int)) == s@.subrange(a as int, hi as int));
    let mut b = hi;
    while b > a && is_space_char(s.get_char(b - 1))
        invariant
            lo <= a <= b <= hi <= s@.len(),
            trim_end(s@.subrange(a as int, b as int)) == trim(s@.subrange(lo as int, hi as int)),
        decreases b - a,
    {
        assert(s@.subrange(a as int, b as int).drop_last() =~= s@.subrange(a as int, b - 1));
        b = b - 1;
    }
    (a, b)
}

/// Position of the first `c` within `s[lo..hi]`, counted from the start of `s`.
pub fn find_in(s: &str, lo: usize, hi: usize, c: char) -> (r: Option<usize>)
    requires
        lo <= hi <= s@.len(),
    ensures
        match r {
            Some(e) => lo <= e < hi && find(s@.subrange(lo as int, hi as int), c) == Some(
                e - lo,
            ),
            None => find(s@.subrange(lo as int, hi as int), c) == None::<int>,
        },
{
    let ghost t = s@.subrange(lo as int, hi as int);
    let mut e = lo;
    while e < hi
        invariant
            lo <= e <= hi <= s@.len(),
            t == s@.subrange(lo as int, hi as int),
            forall|j: int| 0 <= j < e - lo ==> t[j] != c,
        decreases hi - e,
    {
        if s.get_char(e) == c {
            proof {
                let i = e - lo;
                assert(first_at(t, c, i));
                assert forall|k: int| first_at(t, c, k) implies k == i by {
                    if k < i {
                        assert(t[k] != c);
                    } else if k > i {
                        assert(t[i] != c);
                    }
                }
            }
            return Some(e);
        }
        e = e + 1;
    }
    assert forall|k: int| !first_at(t, c, k) by {}
    None
}

/// The characters `s[lo..hi]` as an owned string.
pub fn substring(s: &str, lo: usize, hi: usize) -> (r: String)
    requires
        lo <= hi <= s@.len(),
    ensures
        r@ == s@.subrange(lo as int, hi as int),
{
    s.substring_char(lo, hi).to_owned()
}

} // verus!
