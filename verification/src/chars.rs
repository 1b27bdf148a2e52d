//! Character classes and the few conversions between `&str`, `String` and
//! `Vec<char>` that the engine needs. All text processing in this crate works
//! over character sequences; byte-level encodings never appear.
use vstd::prelude::*;

verus! {

/// A whitespace character: the Unicode `White_Space` set.
pub open spec fn is_wsp(c: char) -> bool {
    let u = c as u32;
    u == 0x09 || u == 0x0A || u == 0x0B || u == 0x0C || u == 0x0D || u == 0x20
        || u == 0x85 || u == 0xA0 || u == 0x1680 || (0x2000 <= u && u <= 0x200A)
        || u == 0x2028 || u == 0x2029 || u == 0x202F || u == 0x205F || u == 0x3000
}

/// A character that can open a soft-wrap run: a newline or a space.
pub open spec fn is_brk(c: char) -> bool {
    c == '\n' || c == ' '
}

/// A letter of the source language pair: Latin, Cyrillic, or one of the
/// accented Latin letters the acronym reordering recognizes.
pub open spec fn is_letter(c: char) -> bool {
    let u = c as u32;
    (0x41 <= u && u <= 0x5A) || (0x61 <= u && u <= 0x7A)  // A-Z a-z
        || (0x430 <= u && u <= 0x44F) || (0x410 <= u && u <= 0x42F)  // Cyrillic
        || u == 0x451 || u == 0x401  // yo
        || u == 0x142 || u == 0x141  // l-stroke
        || u == 0xF3 || u == 0xD3  // o-acute
        || u == 0x144 || u == 0x143  // n-acute
        || u == 0x15B || u == 0x15A  // s-acute
        || u == 0x107 || u == 0x106  // c-acute
        || u == 0x17A || u == 0x179  // z-acute
        || u == 0x17C || u == 0x17B  // z-dot
        || u == 0x119 || u == 0x118  // e-ogonek
        || u == 0x105 || u == 0x104  // a-ogonek
}

/// Runtime test for `is_wsp`.
pub fn wsp(c: char) -> (b: bool)
    ensures
        b == is_wsp(c),
{
    let u = c as u32;
    u == 0x09 || u == 0x0A || u == 0x0B || u == 0x0C || u == 0x0D || u == 0x20
        || u == 0x85 || u == 0xA0 || u == 0x1680 || (0x2000 <= u && u <= 0x200A)
        || u == 0x2028 || u == 0x2029 || u == 0x202F || u == 0x205F || u == 0x3000
}

/// Runtime test for `is_brk`.
pub fn brk(c: char) -> (b: bool)
    ensures
        b == is_brk(c),
{
    c == '\n' || c == ' '
}

/// Runtime test for `is_letter`.
pub fn letter(c: char) -> (b: bool)
    ensures
        b == is_letter(c),
{
    let u = c as u32;
    (0x41 <= u && u <= 0x5A) || (0x61 <= u && u <= 0x7A)
        || (0x430 <= u && u <= 0x44F) || (0x410 <= u && u <= 0x42F)
        || u == 0x451 || u == 0x401
        || u == 0x142 || u == 0x141
        || u == 0xF3 || u == 0xD3
        || u == 0x144 || u == 0x143
        || u == 0x15B || u == 0x15A
        || u == 0x107 || u == 0x106
        || u == 0x17A || u == 0x179
        || u == 0x17C || u == 0x17B
        || u == 0x119 || u == 0x118
        || u == 0x105 || u == 0x104
}

/// Every character of `s` is whitespace (vacuously true of the empty
/// sequence).
pub open spec fn all_wsp(s: Seq<char>) -> bool {
    forall|i: int| 0 <= i < s.len() ==> is_wsp(s[i])
}

/// Runtime test for `all_wsp` over a string slice.
pub fn str_all_wsp(s: &str) -> (b: bool)
    ensures
        b == all_wsp(s@),
{
    let n = s.unicode_len();
    let mut i: usize = 0;
    while i < n
        invariant
            i <= n,
            n == s@.len(),
            forall|x: int| 0 <= x < i ==> is_wsp(s@[x]),
        decreases n - i,
    {
        if !wsp(s.get_char(i)) {
            return false;
        }
        i += 1;
    }
    true
}

/// Relies on std's `String::push`: appends exactly the given character.
#[verifier::external_body]
fn push_char(s: &mut String, c: char)
    ensures
        final(s)@ == old(s)@.push(c),
{
    s.push(c)
}

/// The characters of a string slice, in order.
pub fn str_to_chars(s: &str) -> (v: Vec<char>)
    ensures
        v@ == s@,
{
    let n = s.unicode_len();
    let mut v: Vec<char> = Vec::new();
    let mut i: usize = 0;
    while i < n
        invariant
            i <= n,
            n == s@.len(),
            v@ == s@.take(i as int),
        decreases n - i,
    {
        let c = s.get_char(i);
        v.push(c);
        proof {
            assert(s@.take(i as int).push(s@[i as int]) =~= s@.take(i + 1 as int));
        }
        i += 1;
    }
    proof {
        assert(s@.take(n as int) =~= s@);
    }
    v
}

/// A string holding exactly the given characters, in order.
pub fn chars_to_string(v: &Vec<char>) -> (s: String)
    ensures
        s@ == v@,
{
    let mut s = String::new();
    let mut i: usize = 0;
    while i < v.len()
        invariant
            i <= v.len(),
            s@ == v@.take(i as int),
        decreases v.len() - i,
    {
        push_char(&mut s, v[i]);
        proof {
            assert(v@.take(i as int).push(v@[i as int]) =~= v@.take(i + 1 as int));
        }
        i += 1;
    }
    proof {
        assert(v@.take(v.len() as int) =~= v@);
    }
    s
}

/// Character-by-character string equality, decided over the views.
pub fn str_eq(a: &str, b: &str) -> (r: bool)
    ensures
        r == (a@ == b@),
{
    let na = a.unicode_len();
    let nb = b.unicode_len();
    if na != nb {
        return false;
    }
    let mut i: usize = 0;
    while i < na
        invariant
            i <= na,
            na == a@.len(),
            na == b@.len(),
            a@.take(i as int) == b@.take(i as int),
        decreases na - i,
    {
        let ca = a.get_char(i);
        let cb = b.get_char(i);
        if ca != cb {
            proof {
                assert(a@[i as int] != b@[i as int]);
            }
            return false;
        }
        proof {
            assert(a@.take(i as int).push(a@[i as int]) =~= a@.take(i + 1 as int));
            assert(b@.take(i as int).push(b@[i as int]) =~= b@.take(i + 1 as int));
        }
        i += 1;
    }
    proof {
        assert(a@.take(na as int) =~= a@);
        assert(b@.take(na as int) =~= b@);
    }
    true
}

/// Appends every character of `src` to `out`.
pub fn append_chars(out: &mut Vec<char>, src: &Vec<char>)
    ensures
        final(out)@ == old(out)@ + src@,
{
    let mut i: usize = 0;
    while i < src.len()
        invariant
            i <= src.len(),
            out@ == old(out)@ + src@.take(i as int),
        decreases src.len() - i,
    {
        out.push(src[i]);
        proof {
            assert(old(out)@ + src@.take(i as int).push(src@[i as int]) =~= old(out)@
                + src@.take(i + 1 as int));
        }
        i += 1;
    }
    proof {
        assert(old(out)@ + src@.take(src.len() as int) =~= old(out)@ + src@);
    }
}

/// Appends the characters of `s` with indices in `[from, to)` to `out`.
pub fn append_range(out: &mut Vec<char>, s: &Vec<char>, from: usize, to: usize)
    requires
        from <= to <= s@.len(),
    ensures
        final(out)@ == old(out)@ + s@.subrange(from as int, to as int),
{
    let mut i: usize = from;
    while i < to
        invariant
            from <= i <= to <= s@.len(),
            out@ == old(out)@ + s@.subrange(from as int, i as int),
        decreases to - i,
    {
        out.push(s[i]);
        proof {
            assert(old(out)@ + s@.subrange(from as int, i as int).push(s@[i as int]) =~= old(
                out,
            )@ + s@.subrange(from as int, i + 1 as int));
        }
        i += 1;
    }
}

/// Appends every character of the string slice to `out`.
pub fn append_str(out: &mut Vec<char>, src: &str)
    ensures
        final(out)@ == old(out)@ + src@,
{
    let v = str_to_chars(src);
    append_chars(out, &v);
}

} // verus!
