//! Lowercase hexadecimal text for bytes.

use vstd::prelude::*;
use vstd::string::StringExecFns;

verus! {

/// The sixteen lowercase hexadecimal digits, in order of value.
pub open spec fn hex_digits() -> Seq<char> {
    seq!['0', '1', '2', '3', '4', '5', '6', '7', '8', '9', 'a', 'b', 'c', 'd', 'e', 'f']
}

/// The two digits of a byte, high nibble first.
pub open spec fn byte_hex(b: u8) -> Seq<char> {
    seq![hex_digits()[b as int / 16], hex_digits()[b as int % 16]]
}

/// The digits of a run of bytes, byte after byte, with nothing in between.
pub open spec fn hex(bytes: Seq<u8>) -> Seq<char>
    decreases bytes.len(),
{
    if bytes.len() == 0 {
        Seq::empty()
    } else {
        hex(bytes.drop_last()) + byte_hex(bytes.last())
    }
}

/// The text for a run of bytes: the bytes are taken in groups of eight, the
/// last group holding what is left, and each group is written as its digits
/// followed by one space.
pub open spec fn rendered(bytes: Seq<u8>) -> Seq<char>
    decreases bytes.len(),
{
    if bytes.len() == 0 {
        Seq::empty()
    } else if bytes.len() <= 8 {
        hex(bytes) + seq![' ']
    } else {
        hex(bytes.take(8)) + seq![' '] + rendered(bytes.skip(8))
    }
}

/// The digits of a run of bytes end with the digits of its last byte.
pub proof fn lemma_hex_take(bytes: Seq<u8>, j: int)
    requires
        0 <= j < bytes.len(),
    ensures
        hex(bytes.take(j + 1)) == hex(bytes.take(j)) + byte_hex(bytes[j]),
{
    let grown = bytes.take(j + 1);
    assert(grown.drop_last() =~= bytes.take(j));
    assert(grown.last() == bytes[j]);
}

/// The text for a run of bytes that is not empty starts with the text of its
/// first group and goes on with the text for the bytes after that group.
pub proof fn lemma_rendered_group(bytes: Seq<u8>, width: int)
    requires
        bytes.len() > 0,
        width == if bytes.len() <= 8 { bytes.len() as int } else { 8 },
    ensures
        rendered(bytes) == hex(bytes.take(width)) + seq![' '] + rendered(bytes.skip(width)),
{
    if bytes.len() <= 8 {
        assert(bytes.take(width) =~= bytes);
        assert(bytes.skip(width) =~= Seq::<u8>::empty());
        assert(rendered(bytes.skip(width)) =~= Seq::<char>::empty());
        assert(hex(bytes) + seq![' '] =~= hex(bytes) + seq![' '] + Seq::<char>::empty());
    }
}

/// Every byte contributes two digits.
pub proof fn lemma_hex_len(bytes: Seq<u8>)
    ensures
        hex(bytes).len() == 2 * bytes.len(),
    decreases bytes.len(),
{
    if bytes.len() > 0 {
        lemma_hex_len(bytes.drop_last());
    }
}

/// The text has two digits for every byte and one space for every group
/// begun, so its width depends on the number of bytes alone.
pub proof fn lemma_rendered_len(bytes: Seq<u8>)
    ensures
        rendered(bytes).len() == 2 * bytes.len() + (bytes.len() + 7) / 8,
    decreases bytes.len(),
{
    if bytes.len() == 0 {
    } else if bytes.len() <= 8 {
        lemma_hex_len(bytes);
    } else {
        lemma_hex_len(bytes.take(8));
        lemma_rendered_len(bytes.skip(8));
    }
}

/// The digit for a value below sixteen, as text.
pub fn hex_digit(n: u8) -> (s: &'static str)
    requires
        n < 16,
    ensures
        s@ == seq![hex_digits()[n as int]],
{
    proof {
        reveal_strlit("0");
        reveal_strlit("1");
        reveal_strlit("2");
        reveal_strlit("3");
        reveal_strlit("4");
        reveal_strlit("5");
        reveal_strlit("6");
        reveal_strlit("7");
        reveal_strlit("8");
        reveal_strlit("9");
        reveal_strlit("a");
        reveal_strlit("b");
        reveal_strlit("c");
        reveal_strlit("d");
        reveal_strlit("e");
        reveal_strlit("f");
    }
    let s = match n {
        0 => "0",
        1 => "1",
        2 => "2",
        3 => "3",
        4 => "4",
        5 => "5",
        6 => "6",
        7 => "7",
        8 => "8",
        9 => "9",
        10 => "a",
        11 => "b",
        12 => "c",
        13 => "d",
        14 => "e",
        _ => "f",
    };
    assert(s@ =~= seq![hex_digits()[n as int]]);
    s
}

/// Appends the two digits of a byte to `out`.
pub fn push_byte_hex(out: &mut String, b: u8)
    ensures
        final(out)@ == old(out)@ + byte_hex(b),
{
    assert(b >> 4 == b / 16 && b & 0xf == b % 16) by (bit_vector);
    out.append(hex_digit(b >> 4));
    out.append(hex_digit(b & 0xf));
    assert(out@ =~= old(out)@ + byte_hex(b));
}

} // verus!
