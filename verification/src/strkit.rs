//! Character-level text utilities with exact specifications: whitespace
//! trimming, prefix tests and line splitting over `Seq<char>`, plus the two
//! trusted bridges between bytes, characters and `String`.

use vstd::prelude::*;
use vstd::std_specs::iter::IteratorSpec;
use vstd::utf8::{decode_utf8, valid_utf8};

verus! {

/// The characters Rust documents for `char::is_whitespace`: the Unicode
/// `White_Space` property.
pub open spec fn is_space(c: char) -> bool {
    ||| c as u32 == 0x20
    ||| (0x9 <= c as u32 && c as u32 <= 0xD)
    ||| c as u32 == 0x85
    ||| c as u32 == 0xA0
    ||| c as u32 == 0x1680
    ||| (0x2000 <= c as u32 && c as u32 <= 0x200A)
    ||| c as u32 == 0x2028
    ||| c as u32 == 0x2029
    ||| c as u32 == 0x202F
    ||| c as u32 == 0x205F
    ||| c as u32 == 0x3000
}

/// Executable test for [`is_space`].
pub fn is_space_char(c: char) -> (r: bool)
    ensures
        r == is_space(c),
{
    let u = c as u32;
    u == 0x20 || (0x9 <= u && u <= 0xD) || u == 0x85 || u == 0xA0 || u == 0x1680 || (0x2000 <= u
        && u <= 0x200A) || u == 0x2028 || u == 0x2029 || u == 0x202F || u == 0x205F || u == 0x3000
}

/// The sequence with leading whitespace removed.
pub open spec fn trim_start_spec(s: Seq<char>) -> Seq<char>
    decreases s.len(),
{
    if s.len() > 0 && is_space(s[0]) {
        trim_start_spec(s.drop_first())
    } else {
        s
    }
}

/// The sequence with trailing whitespace removed.
pub open spec fn trim_end_spec(s: Seq<char>) -> Seq<char>
    decreases s.len(),
{
    if s.len() > 0 && is_space(s.last()) {
        trim_end_spec(s.drop_last())
    } else {
        s
    }
}

/// The sequence with surrounding whitespace removed, as `str::trim`.
pub open spec fn trim_spec(s: Seq<char>) -> Seq<char> {
    trim_end_spec(trim_start_spec(s))
}

/// `s` begins with `p`.
pub open spec fn starts_with(s: Seq<char>, p: Seq<char>) -> bool {
    s.len() >= p.len() && s.subrange(0, p.len() as int) == p
}

/// The segments of `s` between newline characters, in order.  A trailing
/// newline yields a final empty segment; the result is never empty.
pub open spec fn split_lines(s: Seq<char>) -> Seq<Seq<char>>
    decreases s.len(),
{
    if s.len() == 0 {
        seq![Seq::<char>::empty()]
    } else if s[0] == '\n' {
        seq![Seq::<char>::empty()] + split_lines(s.drop_first())
    } else {
        let r = split_lines(s.drop_first());
        r.update(0, seq![s[0]] + r[0])
    }
}

/// `split_lines` always yields at least one segment.
pub proof fn lemma_split_lines_nonempty(s: Seq<char>)
    ensures
        split_lines(s).len() >= 1,
    decreases s.len(),
{
    if s.len() > 0 {
        lemma_split_lines_nonempty(s.drop_first());
    }
}

/// Splitting after a newline-free prefix: the prefix joins the first
/// segment of the rest.
pub proof fn lemma_split_lines_concat(a: Seq<char>, b: Seq<char>)
    requires
        forall|i: int| 0 <= i < a.len() ==> a[i] != '\n',
    ensures
        split_lines(a + b) == seq![a + split_lines(b)[0]] + split_lines(b).drop_first(),
    decreases a.len(),
{
    lemma_split_lines_nonempty(b);
    if a.len() == 0 {
        assert(a + b =~= b);
        assert(a + split_lines(b)[0] =~= split_lines(b)[0]);
        assert(seq![split_lines(b)[0]] + split_lines(b).drop_first() =~= split_lines(b));
    } else {
        let s = a + b;
        assert(s.len() > 0 && s[0] == a[0] && a[0] != '\n');
        assert(s.drop_first() =~= a.drop_first() + b);
        assert(forall|i: int| 0 <= i < a.drop_first().len() ==> a.drop_first()[i] != '\n');
        lemma_split_lines_concat(a.drop_first(), b);
        let r = split_lines(s.drop_first());
        assert(r == seq![a.drop_first() + split_lines(b)[0]] + split_lines(b).drop_first());
        assert(r[0] == a.drop_first() + split_lines(b)[0]);
        assert(seq![s[0]] + r[0] =~= a + split_lines(b)[0]);
        assert(split_lines(s) == r.update(0, seq![s[0]] + r[0]));
        assert(r.update(0, seq![s[0]] + r[0]) =~= seq![a + split_lines(b)[0]] + split_lines(
            b,
        ).drop_first());
    }
}

/// Copy a range of a vector.
pub fn slice_of<T: Copy>(v: &Vec<T>, from: usize, to: usize) -> (r: Vec<T>)
    requires
        from <= to <= v@.len(),
    ensures
        r@ == v@.subrange(from as int, to as int),
{
    let mut out: Vec<T> = Vec::new();
    let mut i: usize = from;
    while i < to
        invariant
            from <= i <= to <= v@.len(),
            out@ == v@.subrange(from as int, i as int),
        decreases to - i,
    {
        out.push(v[i]);
        proof {
            assert(out@ =~= v@.subrange(from as int, i + 1));
        }
        i = i + 1;
    }
    out
}

/// Append a copy of each element of `src` to `dst`.
pub fn push_all<T: Copy>(dst: &mut Vec<T>, src: &Vec<T>)
    ensures
        final(dst)@ == old(dst)@ + src@,
{
    proof {
        assert(dst@ =~= dst@ + src@.take(0));
    }
    let mut k: usize = 0;
    while k < src.len()
        invariant
            k <= src@.len(),
            dst@ == old(dst)@ + src@.take(k as int),
        decreases src@.len() - k,
    {
        dst.push(src[k]);
        proof {
            assert(old(dst)@ + src@.take(k as int) + seq![src@[k as int]] =~= old(dst)@
                + src@.take(k + 1));
        }
        k = k + 1;
    }
    proof {
        assert(src@.take(src@.len() as int) =~= src@);
    }
}

/// The characters of a string, in order.
pub fn chars_of(s: &str) -> (r: Vec<char>)
    ensures
        r@ == s@,
{
    broadcast use vstd::string::axiom_spec_iter;
    broadcast use vstd::string::next_postcondition;

    let mut it = s.chars();
    let mut out: Vec<char> = Vec::new();
    loop
        invariant
            it.obeys_prophetic_iter_laws(),
            it.decrease() is Some,
            out@ + it.remaining() == s@,
        ensures
            out@ == s@,
        decreases it.decrease()->0,
    {
        match it.next() {
            Some(c) => {
                out.push(c);
                proof {
                    assert(out@ + it.remaining() =~= s@);
                }
            },
            None => {
                proof {
                    assert(out@ =~= s@);
                }
                break;
            },
        }
    }
    out
}

/// Relies on `String`'s `FromIterator<char>`: collecting characters yields
/// the string of exactly those characters, in order.
#[verifier::external_body]
pub fn string_from_chars(v: Vec<char>) -> (r: String)
    ensures
        r@ == v@,
{
    v.into_iter().collect()
}

/// Relies on `String::from_utf8`: it succeeds exactly on valid UTF-8, and
/// the decoded characters are the UTF-8 decoding of the input bytes.
#[verifier::external_body]
pub fn string_from_utf8(v: Vec<u8>) -> (r: Option<String>)
    ensures
        r is Some <==> valid_utf8(v@),
        r matches Some(s) ==> s@ == decode_utf8(v@),
{
    match String::from_utf8(v) {
        Ok(s) => Some(s),
        Err(_) => None,
    }
}

/// Whether `v` begins with `p`.
pub fn chars_start_with(v: &Vec<char>, p: &Vec<char>) -> (r: bool)
    ensures
        r == starts_with(v@, p@),
{
    if v.len() < p.len() {
        assert(!starts_with(v@, p@));
        return false;
    }
    let mut i: usize = 0;
    while i < p.len()
        invariant
            i <= p@.len() <= v@.len(),
            forall|j: int| 0 <= j < i ==> v@[j] == p@[j],
        decreases p@.len() - i,
    {
        if v[i] != p[i] {
            proof {
                assert(v@.subrange(0, p@.len() as int)[i as int] != p@[i as int]);
            }
            return false;
        }
        i = i + 1;
    }
    proof {
        assert(v@.subrange(0, p@.len() as int) =~= p@);
    }
    true
}

/// The trimmed copy of a character vector.
pub fn trim_chars(v: &Vec<char>) -> (r: Vec<char>)
    ensures
        r@ == trim_spec(v@),
{
    let ghost s = v@;
    proof {
        assert(s.skip(0) =~= s);
    }
    let mut from: usize = 0;
    while from < v.len() && is_space_char(v[from])
        invariant
            from <= s.len(),
            v@ == s,
            trim_start_spec(s) == trim_start_spec(s.skip(from as int)),
        decreases s.len() - from,
    {
        proof {
            assert(s.skip(from as int).drop_first() =~= s.skip(from + 1));
        }
        from = from + 1;
    }
    proof {
        assert(trim_start_spec(s.skip(from as int)) == s.skip(from as int));
    }
    let ghost t = s.skip(from as int);
    proof {
        assert(t.take(v@.len() - from as int) =~= t);
    }
    let mut to: usize = v.len();
    while to > from && is_space_char(v[to - 1])
        invariant
            from <= to <= s.len(),
            v@ == s,
            t == s.skip(from as int),
            trim_start_spec(s) == t,
            trim_end_spec(t) == trim_end_spec(t.take(to - from as int)),
        decreases to,
    {
        proof {
            let u = t.take(to - from as int);
            assert(u.len() > 0 && u.last() == s[to - 1]);
            assert(u.drop_last() =~= t.take(to - 1 - from as int));
        }
        to = to - 1;
    }
    proof {
        let u = t.take(to - from as int);
        if u.len() > 0 {
            assert(u.last() == s[to - 1]);
        }
        assert(trim_end_spec(u) == u);
    }
    let r = slice_of(v, from, to);
    proof {
        assert(r@ =~= t.take(to - from as int));
    }
    r
}

} // verus!
