//! Character-level helpers on string slices.

use vstd::prelude::*;
use vstd::slice::{slice_subrange, slice_to_vec};
use vstd::string::*;

verus! {

/// A fresh string holding the characters of `s`.
pub fn owned(s: &str) -> (r: String)
    ensures
        r@ == s@,
{
    s.to_owned()
}

/// Whether two string slices hold the same characters.
pub fn str_eq(a: &str, b: &str) -> (r: bool)
    ensures
        r == (a@ == b@),
{
    let n = a.unicode_len();
    if n != b.unicode_len() {
        return false;
    }
    let mut i: usize = 0;
    while i < n
        invariant
            n == a@.len(),
            n == b@.len(),
            i <= n,
            forall|j: int| 0 <= j < i ==> a@[j] == b@[j],
        decreases n - i,
    {
        if a.get_char(i) != b.get_char(i) {
            return false;
        }
        i = i + 1;
    }
    assert(a@ =~= b@);
    true
}


/// The parts of `s` before and after the first occurrence of `sep`, if any.
pub open spec fn split_once<A>(s: Seq<A>, sep: A) -> Option<(Seq<A>, Seq<A>)>
    decreases s.len(),
{
    if s.len() == 0 {
        None
    } else if s[0] == sep {
        Some((Seq::empty(), s.skip(1)))
    } else {
        match split_once(s.skip(1), sep) {
            Some((a, b)) => Some((seq![s[0]] + a, b)),
            None => None,
        }
    }
}

/// `split_once` cuts at the first separator, and finds none when there is
/// none.
pub proof fn lemma_split_once_at<A>(s: Seq<A>, sep: A, i: int)
    requires
        0 <= i <= s.len(),
        forall|j: int| 0 <= j < i ==> s[j] != sep,
    ensures
        i < s.len() && s[i] == sep ==> split_once(s, sep) == Some((s.take(i), s.skip(i + 1))),
        i == s.len() ==> split_once(s, sep) is None,
    decreases i,
{
    if i > 0 {
        lemma_split_once_at(s.skip(1), sep, i - 1);
        assert(seq![s[0]] + s.skip(1).take(i - 1) =~= s.take(i));
        if i < s.len() {
            assert(s.skip(1).skip(i) =~= s.skip(i + 1));
        }
    } else {
        assert(s.take(0) =~= Seq::<A>::empty());
    }
}

/// The index of the first `sep` in `s`, or the length of `s` when there is
/// none.
pub fn find_byte(s: &[u8], sep: u8) -> (i: usize)
    ensures
        i <= s@.len(),
        forall|j: int| 0 <= j < i ==> s@[j] != sep,
        i < s@.len() ==> s@[i as int] == sep,
{
    let mut i: usize = 0;
    while i < s.len()
        invariant
            i <= s@.len(),
            forall|j: int| 0 <= j < i ==> s@[j] != sep,
        decreases s@.len() - i,
    {
        if s[i] == sep {
            return i;
        }
        i = i + 1;
    }
    i
}


/// The pieces of `s` between occurrences of `sep`, in order; there is
/// always at least one, possibly empty, piece.
pub open spec fn split<A>(s: Seq<A>, sep: A) -> Seq<Seq<A>>
    decreases s.len(),
{
    if s.len() == 0 {
        seq![Seq::empty()]
    } else {
        let rest = split(s.skip(1), sep);
        if s[0] == sep {
            seq![Seq::empty()] + rest
        } else {
            rest.update(0, seq![s[0]] + rest[0])
        }
    }
}

/// `split` never yields an empty list of pieces.
pub proof fn lemma_split_nonempty<A>(s: Seq<A>, sep: A)
    ensures
        split(s, sep).len() > 0,
    decreases s.len(),
{
    if s.len() > 0 {
        lemma_split_nonempty(s.skip(1), sep);
    }
}

/// `pieces` with `prefix` put in front of the first piece.
pub open spec fn prepend_first<A>(prefix: Seq<A>, pieces: Seq<Seq<A>>) -> Seq<Seq<A>> {
    pieces.update(0, prefix + pieces[0])
}

/// The index of the first `sep` in `s`, or the length of `s` when there is
/// none.
pub fn find_char(s: &str, sep: char) -> (i: usize)
    ensures
        i <= s@.len(),
        forall|j: int| 0 <= j < i ==> s@[j] != sep,
        i < s@.len() ==> s@[i as int] == sep,
{
    let n = s.unicode_len();
    let mut i: usize = 0;
    while i < n
        invariant
            n == s@.len(),
            i <= n,
            forall|j: int| 0 <= j < i ==> s@[j] != sep,
        decreases n - i,
    {
        if s.get_char(i) == sep {
            return i;
        }
        i = i + 1;
    }
    i
}

/// Splits `s` at every `sep`, as `str::split` does.
pub fn split_str(s: &str, sep: char) -> (r: Vec<String>)
    ensures
        r.deep_view() == split(s@, sep),
{
    let n = s.unicode_len();
    let mut pieces: Vec<String> = Vec::new();
    let mut start: usize = 0;
    let mut i: usize = 0;
    assert(s@.skip(0) =~= s@);
    assert(s@.subrange(0, 0) =~= Seq::<char>::empty());
    proof {
        lemma_split_nonempty(s@, sep);
        assert(prepend_first(Seq::<char>::empty(), split(s@, sep)) =~= split(s@, sep));
    }
    while i < n
        invariant
            n == s@.len(),
            start <= i <= n,
            split(s@, sep) == pieces.deep_view() + prepend_first(
                s@.subrange(start as int, i as int),
                split(s@.skip(i as int), sep),
            ),
        decreases n - i,
    {
        let ghost cur = s@.subrange(start as int, i as int);
        let ghost rest = split(s@.skip((i + 1) as int), sep);
        proof {
            assert(s@.skip(i as int).skip(1) =~= s@.skip((i + 1) as int));
            assert(s@.skip(i as int)[0] == s@[i as int]);
            lemma_split_nonempty(s@.skip((i + 1) as int), sep);
        }
        if s.get_char(i) == sep {
            let piece = s.substring_char(start, i).to_owned();
            let ghost prev = pieces.deep_view();
            pieces.push(piece);
            proof {
                assert(pieces.deep_view() =~= prev.push(cur));
                assert(split(s@.skip(i as int), sep) == seq![Seq::<char>::empty()] + rest);
                assert(prepend_first(cur, seq![Seq::<char>::empty()] + rest) =~= seq![cur] + rest);
                assert(s@.subrange((i + 1) as int, (i + 1) as int) =~= Seq::<char>::empty());
                assert(prepend_first(Seq::<char>::empty(), rest) =~= rest);
                assert(prev + (seq![cur] + rest) =~= pieces.deep_view() + rest);
            }
            start = i + 1;
        } else {
            proof {
                assert(split(s@.skip(i as int), sep) == rest.update(0, seq![s@[i as int]] + rest[0]));
                assert(s@.subrange(start as int, (i + 1) as int) =~= cur + seq![s@[i as int]]);
                assert((cur + seq![s@[i as int]]) + rest[0] =~= cur + (seq![s@[i as int]] + rest[0]));
                assert(prepend_first(cur, rest.update(0, seq![s@[i as int]] + rest[0]))
                    =~= prepend_first(cur + seq![s@[i as int]], rest));
            }
        }
        i = i + 1;
    }
    let piece = s.substring_char(start, n).to_owned();
    let ghost prev = pieces.deep_view();
    pieces.push(piece);
    proof {
        assert(s@.skip(n as int) =~= Seq::<char>::empty());
        assert(prepend_first(s@.subrange(start as int, n as int), seq![Seq::<char>::empty()])
            =~= seq![s@.subrange(start as int, n as int)]);
        assert(pieces.deep_view() =~= prev + seq![s@.subrange(start as int, n as int)]);
    }
    pieces
}


/// Splits a byte string at every `sep`, as `<[u8]>::split` does.
pub fn split_bytes(s: &[u8], sep: u8) -> (r: Vec<Vec<u8>>)
    ensures
        r.deep_view() == split(s@, sep),
{
    let n = s.len();
    let mut pieces: Vec<Vec<u8>> = Vec::new();
    let mut start: usize = 0;
    let mut i: usize = 0;
    assert(s@.skip(0) =~= s@);
    assert(s@.subrange(0, 0) =~= Seq::<u8>::empty());
    proof {
        lemma_split_nonempty(s@, sep);
        assert(prepend_first(Seq::<u8>::empty(), split(s@, sep)) =~= split(s@, sep));
    }
    while i < n
        invariant
            n == s@.len(),
            start <= i <= n,
            split(s@, sep) == pieces.deep_view() + prepend_first(
                s@.subrange(start as int, i as int),
                split(s@.skip(i as int), sep),
            ),
        decreases n - i,
    {
        let ghost cur = s@.subrange(start as int, i as int);
        let ghost rest = split(s@.skip((i + 1) as int), sep);
        proof {
            assert(s@.skip(i as int).skip(1) =~= s@.skip((i + 1) as int));
            assert(s@.skip(i as int)[0] == s@[i as int]);
            lemma_split_nonempty(s@.skip((i + 1) as int), sep);
        }
        if s[i] == sep {
            let piece = slice_to_vec(slice_subrange(s, start, i));
            let ghost prev = pieces.deep_view();
            pieces.push(piece);
            proof {
                assert(piece.deep_view() =~= cur);
                assert(pieces.deep_view() =~= prev.push(cur));
                assert(split(s@.skip(i as int), sep) == seq![Seq::<u8>::empty()] + rest);
                assert(prepend_first(cur, seq![Seq::<u8>::empty()] + rest) =~= seq![cur] + rest);
                assert(s@.subrange((i + 1) as int, (i + 1) as int) =~= Seq::<u8>::empty());
                assert(prepend_first(Seq::<u8>::empty(), rest) =~= rest);
                assert(prev + (seq![cur] + rest) =~= pieces.deep_view() + rest);
            }
            start = i + 1;
        } else {
            proof {
                assert(split(s@.skip(i as int), sep) == rest.update(0, seq![s@[i as int]] + rest[0]));
                assert(s@.subrange(start as int, (i + 1) as int) =~= cur + seq![s@[i as int]]);
                assert((cur + seq![s@[i as int]]) + rest[0] =~= cur + (seq![s@[i as int]] + rest[0]));
                assert(prepend_first(cur, rest.update(0, seq![s@[i as int]] + rest[0]))
                    =~= prepend_first(cur + seq![s@[i as int]], rest));
            }
        }
        i = i + 1;
    }
    let piece = slice_to_vec(slice_subrange(s, start, n));
    let ghost prev = pieces.deep_view();
    pieces.push(piece);
    proof {
        assert(piece.deep_view() =~= s@.subrange(start as int, n as int));
        assert(s@.skip(n as int) =~= Seq::<u8>::empty());
        assert(prepend_first(s@.subrange(start as int, n as int), seq![Seq::<u8>::empty()])
            =~= seq![s@.subrange(start as int, n as int)]);
        assert(pieces.deep_view() =~= prev + seq![s@.subrange(start as int, n as int)]);
    }
    pieces
}

/// The pieces joined back together with `sep` between them.
pub open spec fn join<A>(pieces: Seq<Seq<A>>, sep: A) -> Seq<A>
    decreases pieces.len(),
{
    if pieces.len() == 0 {
        Seq::empty()
    } else if pieces.len() == 1 {
        pieces[0]
    } else {
        pieces[0] + seq![sep] + join(pieces.skip(1), sep)
    }
}

/// Splitting loses nothing: joining the pieces gives the text back.
pub proof fn lemma_join_split<A>(s: Seq<A>, sep: A)
    ensures
        join(split(s, sep), sep) == s,
    decreases s.len(),
{
    if s.len() == 0 {
    } else {
        let rest = s.skip(1);
        lemma_join_split(rest, sep);
        lemma_split_nonempty(rest, sep);
        let r = split(rest, sep);
        if s[0] == sep {
            let p = seq![Seq::<A>::empty()] + r;
            assert(p.skip(1) =~= r);
            assert(join(p, sep) =~= Seq::<A>::empty() + seq![sep] + join(r, sep));
            assert(s =~= seq![sep] + rest);
        } else {
            let p = r.update(0, seq![s[0]] + r[0]);
            assert(p.skip(1) =~= r.skip(1));
            if r.len() == 1 {
                assert(join(p, sep) == seq![s[0]] + r[0]);
                assert(s =~= seq![s[0]] + rest);
            } else {
                assert(join(p, sep) == (seq![s[0]] + r[0]) + seq![sep] + join(r.skip(1), sep));
                assert(join(r, sep) == r[0] + seq![sep] + join(r.skip(1), sep));
                assert((seq![s[0]] + r[0]) + seq![sep] + join(r.skip(1), sep) =~= seq![s[0]] + (r[0]
                    + seq![sep] + join(r.skip(1), sep)));
                assert(s =~= seq![s[0]] + rest);
            }
        }
    }
}

/// `split_once` loses nothing either: the parts with the separator between
/// them give the text back, and the first part holds no separator.
pub proof fn lemma_split_once_parts<A>(s: Seq<A>, sep: A)
    ensures
        split_once(s, sep) matches Some((a, b)) ==> {
            &&& s == a + seq![sep] + b
            &&& forall|i: int| 0 <= i < a.len() ==> a[i] != sep
        },
    decreases s.len(),
{
    if s.len() > 0 {
        if s[0] == sep {
            assert(s =~= Seq::<A>::empty() + seq![sep] + s.skip(1));
        } else {
            lemma_split_once_parts(s.skip(1), sep);
            if let Some((a, b)) = split_once(s.skip(1), sep) {
                assert(s =~= seq![s[0]] + s.skip(1));
                assert(seq![s[0]] + (a + seq![sep] + b) =~= (seq![s[0]] + a) + seq![sep] + b);
                assert forall|i: int| 0 <= i < (seq![s[0]] + a).len() implies (seq![s[0]] + a)[i] != sep by {
                    if i > 0 {
                        assert((seq![s[0]] + a)[i] == a[i - 1]);
                    }
                }
            }
        }
    }
}

} // verus!
