use vstd::prelude::*;
use vstd::string::StringSliceAdditionalSpecFns;
use vstd::utf8::*;

verus! {

/// Number of characters before the first `\n` of `s` (all of `s` if it has none).
pub open spec fn line_len(s: Seq<char>) -> nat
    decreases s.len(),
{
    if s.len() == 0 || s[0] == '\n' {
        0
    } else {
        1 + line_len(s.drop_first())
    }
}

/// A line ended by `\r\n` loses its `\r` as well as its `\n`.
pub open spec fn strip_cr(l: Seq<char>) -> Seq<char> {
    if l.len() > 0 && l.last() == '\r' {
        l.drop_last()
    } else {
        l
    }
}

/// The lines of a text: split at each `\n`, a `\r` just before a `\n` dropped,
/// and a final line without terminator kept when it is not empty.
pub open spec fn lines_of(s: Seq<char>) -> Seq<Seq<char>>
    decreases s.len(),
{
    if s.len() == 0 {
        seq![]
    } else {
        let k = line_len(s);
        if k >= s.len() {
            seq![s]
        } else {
            seq![strip_cr(s.take(k as int))] + lines_of(s.skip((k + 1) as int))
        }
    }
}

/// The texts of a sequence of slices.
pub open spec fn views_of<'a>(v: Seq<&'a str>) -> Seq<Seq<char>> {
    v.map_values(|l: &'a str| l@)
}

proof fn lemma_line_len(s: Seq<char>, k: int)
    requires
        0 <= k <= s.len(),
        forall|j: int| 0 <= j < k ==> s[j] != '\n',
        k == s.len() || s[k] == '\n',
    ensures
        line_len(s) == k,
    decreases k,
{
    if k > 0 {
        lemma_line_len(s.drop_first(), k - 1);
    }
}

proof fn lemma_encode_concat(a: Seq<char>, b: Seq<char>)
    ensures
        encode_utf8(a + b) == encode_utf8(a) + encode_utf8(b),
    decreases a.len(),
{
    if a.len() > 0 {
        lemma_encode_concat(a.drop_first(), b);
        assert((a + b).drop_first() =~= a.drop_first() + b);
        assert((a + b)[0] == a[0]);
        assert(encode_utf8(a + b) =~= encode_utf8(a) + encode_utf8(b));
    } else {
        assert(a + b =~= b);
    }
}

/// The encoding of an ASCII character is that one byte.
proof fn lemma_encode_ascii(c: char)
    requires
        (c as u32) < 0x80,
    ensures
        encode_scalar(c as u32) == seq![(c as u32) as u8],
{
    let v = c as u32;
    assert((v & 0x7F) as u8 == v as u8) by (bit_vector)
        requires
            v < 0x80,
    ;
}

proof fn lemma_encode_single(c: char)
    ensures
        encode_utf8(seq![c]) == encode_scalar(c as u32),
{
    let s = seq![c];
    assert(s.drop_first() =~= Seq::<char>::empty());
    assert(encode_utf8(s.drop_first()) =~= Seq::<u8>::empty());
    assert(encode_utf8(s) =~= encode_scalar(s[0] as u32) + encode_utf8(s.drop_first()));
    assert(encode_utf8(s) =~= encode_scalar(c as u32));
}

proof fn lemma_same_code(c: char, d: char)
    requires
        c as u32 == d as u32,
    ensures
        c == d,
{
    char_u32_cast(c, c as u32);
    char_u32_cast(d, d as u32);
}

/// An ASCII character of a text appears as its own byte in the encoding.
proof fn lemma_ascii_char_encoded(s: Seq<char>, k: int)
    requires
        0 <= k < s.len(),
        (s[k] as u32) < 0x80,
    ensures
        exists|p: int| 0 <= p < encode_utf8(s).len() && encode_utf8(s)[p] == (s[k] as u32) as u8,
{
    let pre = s.take(k);
    let post = s.skip(k + 1);
    assert(s =~= pre + (seq![s[k]] + post));
    lemma_encode_concat(pre, seq![s[k]] + post);
    lemma_encode_concat(seq![s[k]], post);
    lemma_encode_ascii(s[k]);
    lemma_encode_single(s[k]);
    let p = encode_utf8(pre).len() as int;
    assert(encode_utf8(s)[p] == (s[k] as u32) as u8);
}

/// A text whose encoding starts with an ASCII byte starts with that character,
/// which takes one byte.
proof fn lemma_first_ascii(s: Seq<char>)
    requires
        encode_utf8(s).len() > 0,
        encode_utf8(s)[0] < 0x80,
    ensures
        s.len() > 0,
        s[0] as u32 == encode_utf8(s)[0] as u32,
        encode_utf8(s.drop_first()) == encode_utf8(s).skip(1),
{
    if s.len() == 0 {
    } else {
        let bytes = encode_utf8(s);
        encode_utf8_first_scalar(s);
        let b = bytes[0];
        assert(leading_bits_width_1(b) == b as u32) by (bit_vector)
            requires
                b < 0x80,
        ;
        assert(encode_utf8(s) =~= encode_scalar(s[0] as u32) + encode_utf8(s.drop_first()));
        assert(encode_utf8(s.drop_first()) =~= bytes.skip(1));
    }
}

/// Splitting the encoding of a text at a character boundary splits the text.
proof fn lemma_split(s: Seq<char>, mid: int, a: Seq<char>, b: Seq<char>)
    requires
        0 <= mid <= encode_utf8(s).len(),
        is_char_boundary(encode_utf8(s), mid),
        encode_utf8(a) == encode_utf8(s).subrange(0, mid),
        encode_utf8(b) == encode_utf8(s).subrange(mid, encode_utf8(s).len() as int),
    ensures
        s == a + b,
{
    broadcast use encode_utf8_valid_utf8, encode_utf8_decode_utf8;

    decode_utf8_split(encode_utf8(s), mid);
}

/// Drops a `\r` that ends the line.
fn without_cr<'a>(line: &'a str) -> (r: &'a str)
    ensures
        r@ == strip_cr(line@),
{
    broadcast use encode_utf8_valid_utf8;

    let bytes = line.as_bytes();
    let n = bytes.len();
    if n > 0 && bytes[n - 1] == 13u8 {
        let ghost eb = encode_utf8(line@);
        proof {
            is_char_boundary_iff_not_is_continuation_byte(eb, n - 1);
        }
        let (a, c) = line.split_at(n - 1);
        proof {
            lemma_split(line@, n - 1, a@, c@);
            lemma_first_ascii(c@);
            assert(c.spec_bytes().skip(1).len() == 0);
            assert(c@.drop_first().len() == 0);
            lemma_same_code(c@[0], '\r');
            assert(line@.drop_last() =~= a@);
        }
        a
    } else {
        proof {
            if line@.len() > 0 && line@.last() == '\r' {
                lemma_encode_concat(line@.drop_last(), seq![line@.last()]);
                assert(line@ =~= line@.drop_last() + seq![line@.last()]);
                lemma_encode_ascii(line@.last());
                lemma_encode_single(line@.last());
                assert(bytes@[n - 1] == 13u8);
            }
        }
        line
    }
}

/// The lines of `contents`, as slices of it.
pub fn split_lines<'a>(contents: &'a str) -> (r: Vec<&'a str>)
    ensures
        views_of(r@) == lines_of(contents@),
{
    broadcast use encode_utf8_valid_utf8;

    let mut out: Vec<&'a str> = Vec::new();
    let mut rest: &'a str = contents;
    loop
        invariant_except_break
            views_of(out@) + lines_of(rest@) == lines_of(contents@),
        ensures
            views_of(out@) == lines_of(contents@),
        decreases rest@.len(),
    {
        if rest.is_empty() {
            assert(views_of(out@) =~= lines_of(contents@));
            break;
        }
        let bytes = rest.as_bytes();
        let ghost eb = encode_utf8(rest@);
        let mut b: usize = 0;
        while b < bytes.len() && bytes[b] != 10u8
            invariant
                bytes@ == eb,
                b <= bytes@.len(),
                forall|j: int| 0 <= j < b ==> bytes@[j] != 10u8,
            decreases bytes@.len() - b,
        {
            b = b + 1;
        }
        if b == bytes.len() {
            proof {
                assert forall|j: int| 0 <= j < rest@.len() implies rest@[j] != '\n' by {
                    if rest@[j] == '\n' {
                        lemma_ascii_char_encoded(rest@, j);
                    }
                }
                lemma_line_len(rest@, rest@.len() as int);
                assert(views_of(out@.push(rest)) =~= views_of(out@) + seq![rest@]);
            }
            out.push(rest);
            assert(views_of(out@) =~= lines_of(contents@));
            break;
        }
        proof {
            encode_utf8_valid_utf8(rest@);
            assert(b < eb.len());
            is_char_boundary_iff_not_is_continuation_byte(eb, b as int);
        }
        let (line, tail) = rest.split_at(b);
        proof {
            lemma_split(rest@, b as int, line@, tail@);
            assert(tail.spec_bytes()[0] == 10u8);
            lemma_first_ascii(tail@);
            lemma_same_code(tail@[0], '\n');
            reveal_with_fuel(is_char_boundary, 2);
            encode_utf8_first_scalar(tail@);
            lemma_encode_ascii(tail@[0]);
            encode_utf8_valid_utf8(tail@);
        }
        let (newline, after) = tail.split_at(1);
        proof {
            lemma_split(tail@, 1, newline@, after@);
            assert forall|j: int| 0 <= j < line@.len() implies line@[j] != '\n' by {
                if line@[j] == '\n' {
                    lemma_ascii_char_encoded(line@, j);
                }
            }
            lemma_line_len(rest@, line@.len() as int);
            let k = line@.len() as int;
            assert(rest@.take(k) =~= line@);
            assert(encode_utf8(after@) =~= encode_utf8(tail@).skip(1));
            encode_utf8_decode_utf8(after@);
            encode_utf8_decode_utf8(tail@.drop_first());
            assert(rest@.skip(k + 1) =~= after@);
        }
        let l = without_cr(line);
        proof {
            assert(views_of(out@.push(l)) =~= views_of(out@) + seq![l@]);
        }
        out.push(l);
        rest = after;
    }
    out
}

} // verus!
