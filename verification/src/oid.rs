//! Object identifiers: the twenty bytes of a content address, their
//! hexadecimal form, and the links that are made of it.

use vstd::prelude::*;
use vstd::string::StrSliceExecFns;
use vstd::string::StringExecFns;

verus! {

/// The number of bytes of an object identifier.
pub const OID_LENGTH: usize = 20;

/// The number of hexadecimal digits of the short form of an identifier.
pub const PRETTY_OID_CHAR_LENGTH: usize = 8;

/// The content address of a commit, a tree or a blob.
#[derive(Clone, Copy, Debug, PartialEq, Eq, Hash)]
pub struct ObjectId {
    bytes: [u8; 20],
}

impl View for ObjectId {
    type V = Seq<u8>;

    closed spec fn view(&self) -> Seq<u8> {
        self.bytes@
    }
}

/// The sixteen hexadecimal digits, in lower case.
pub open spec fn hex_digits() -> Seq<char> {
    seq!['0', '1', '2', '3', '4', '5', '6', '7', '8', '9', 'a', 'b', 'c', 'd', 'e', 'f']
}

/// The hexadecimal form of bytes: two digits for each byte, the upper half
/// of the byte first.
pub open spec fn hex(bytes: Seq<u8>) -> Seq<char> {
    Seq::new(
        2 * bytes.len(),
        |i: int|
            if i % 2 == 0 {
                hex_digits()[bytes[i / 2] as int / 16]
            } else {
                hex_digits()[bytes[i / 2] as int % 16]
            },
    )
}

/// The value of a hexadecimal digit, in either case; `None` for any other
/// character.
pub open spec fn digit_value(c: char) -> Option<int> {
    if '0' <= c <= '9' {
        Some(c as int - '0' as int)
    } else if 'a' <= c <= 'f' {
        Some(c as int - 'a' as int + 10)
    } else if 'A' <= c <= 'F' {
        Some(c as int - 'A' as int + 10)
    } else {
        None
    }
}

/// Whether `text` is the hexadecimal form of an identifier: forty digits.
pub open spec fn is_hex_oid(text: Seq<char>) -> bool {
    &&& text.len() == 2 * OID_LENGTH
    &&& forall|i: int| 0 <= i < text.len() ==> digit_value(#[trigger] text[i]) is Some
}

/// The bytes that forty hexadecimal digits stand for.
pub open spec fn unhex(text: Seq<char>) -> Seq<u8> {
    Seq::new(
        OID_LENGTH as nat,
        |i: int| (digit_value(text[2 * i])->0 * 16 + digit_value(text[2 * i + 1])->0) as u8,
    )
}

/// One hexadecimal digit as text.
fn digit_text(nibble: u8) -> (digit: &'static str)
    requires
        nibble < 16,
    ensures
        digit@ == seq![hex_digits()[nibble as int]],
{
    proof {
        reveal_strlit("0");
        reveal_strlit("1");
        reveal_strlit("2");
        reveal_strlit("3");
        reveal_strlit("4");
        reveal_strlit("5");
        reveal_strlit("6");
        reveal_strlit("7");
        reveal_strlit("8");
        reveal_strlit("9");
        reveal_strlit("a");
        reveal_strlit("b");
        reveal_strlit("c");
        reveal_strlit("d");
        reveal_strlit("e");
        reveal_strlit("f");
    }
    let digit = if nibble == 0 {
        "0"
    } else if nibble == 1 {
        "1"
    } else if nibble == 2 {
        "2"
    } else if nibble == 3 {
        "3"
    } else if nibble == 4 {
        "4"
    } else if nibble == 5 {
        "5"
    } else if nibble == 6 {
        "6"
    } else if nibble == 7 {
        "7"
    } else if nibble == 8 {
        "8"
    } else if nibble == 9 {
        "9"
    } else if nibble == 10 {
        "a"
    } else if nibble == 11 {
        "b"
    } else if nibble == 12 {
        "c"
    } else if nibble == 13 {
        "d"
    } else if nibble == 14 {
        "e"
    } else {
        "f"
    };
    assert(digit@ =~= seq![hex_digits()[nibble as int]]);
    digit
}

/// Writes the first `digits` hexadecimal digits of `bytes` behind `text`.
fn append_hex(text: &mut String, bytes: &[u8], digits: usize)
    requires
        digits <= 2 * bytes@.len(),
    ensures
        final(text)@ == old(text)@ + hex(bytes@).take(digits as int),
{
    let mut i: usize = 0;
    while i < digits
        invariant
            0 <= i <= digits <= 2 * bytes@.len(),
            text@ == old(text)@ + hex(bytes@).take(i as int),
        decreases digits - i,
    {
        let byte = bytes[i / 2];
        let nibble = if i % 2 == 0 {
            byte / 16
        } else {
            byte % 16
        };
        text.append(digit_text(nibble));
        proof {
            assert(hex(bytes@).take(i + 1) =~= hex(bytes@).take(i as int).push(
                hex_digits()[nibble as int],
            ));
            assert(old(text)@ + hex(bytes@).take(i + 1) =~= (old(text)@ + hex(bytes@).take(
                i as int,
            )) + seq![hex_digits()[nibble as int]]);
        }
        i += 1;
    }
}

/// The value of a hexadecimal digit.
fn value_of_digit(c: char) -> (value: Option<u8>)
    ensures
        match value {
            Some(v) => digit_value(c) == Some(v as int) && v < 16,
            None => digit_value(c) is None,
        },
{
    if '0' <= c && c <= '9' {
        Some((c as u32 - '0' as u32) as u8)
    } else if 'a' <= c && c <= 'f' {
        Some((c as u32 - 'a' as u32 + 10) as u8)
    } else if 'A' <= c && c <= 'F' {
        Some((c as u32 - 'A' as u32 + 10) as u8)
    } else {
        None
    }
}

impl ObjectId {
    /// An identifier has twenty bytes.
    pub proof fn lemma_has_twenty_bytes(self)
        ensures
            self@.len() == OID_LENGTH,
    {
    }

    /// The identifier made of `bytes`, where they are twenty.
    pub fn from_bytes(bytes: &[u8]) -> (oid: Option<ObjectId>)
        ensures
            match oid {
                Some(oid) => bytes@.len() == OID_LENGTH && oid@ == bytes@,
                None => bytes@.len() != OID_LENGTH,
            },
    {
        if bytes.len() != OID_LENGTH {
            return None;
        }
        let mut copy = [0u8; 20];
        let mut i: usize = 0;
        while i < OID_LENGTH
            invariant
                0 <= i <= OID_LENGTH,
                bytes@.len() == OID_LENGTH,
                forall|k: int| 0 <= k < i ==> copy@[k] == bytes@[k],
            decreases OID_LENGTH - i,
        {
            copy[i] = bytes[i];
            i += 1;
        }
        assert(copy@ =~= bytes@);
        Some(ObjectId { bytes: copy })
    }

    /// The identifier that forty hexadecimal digits stand for; `None` for any
    /// other text.
    pub fn from_str(text: &str) -> (oid: Option<ObjectId>)
        ensures
            match oid {
                Some(oid) => is_hex_oid(text@) && oid@ == unhex(text@),
                None => !is_hex_oid(text@),
            },
    {
        if text.unicode_len() != 2 * OID_LENGTH {
            return None;
        }
        let mut bytes = [0u8; 20];
        let mut i: usize = 0;
        while i < OID_LENGTH
            invariant
                0 <= i <= OID_LENGTH,
                text@.len() == 2 * OID_LENGTH,
                forall|k: int| 0 <= k < 2 * i ==> digit_value(#[trigger] text@[k]) is Some,
                forall|k: int| 0 <= k < i ==> bytes@[k] == unhex(text@)[k],
            decreases OID_LENGTH - i,
        {
            let upper = match value_of_digit(text.get_char(2 * i)) {
                Some(value) => value,
                None => {
                    return None;
                },
            };
            let lower = match value_of_digit(text.get_char(2 * i + 1)) {
                Some(value) => value,
                None => {
                    return None;
                },
            };
            bytes[i] = upper * 16 + lower;
            i += 1;
        }
        assert(bytes@ =~= unhex(text@));
        Some(ObjectId { bytes })
    }

    /// The twenty bytes.
    pub fn as_bytes(&self) -> (bytes: &[u8])
        ensures
            bytes@ == self@,
            bytes@.len() == OID_LENGTH,
    {
        self.bytes.as_slice()
    }

    /// The hexadecimal form: forty digits in lower case.
    pub fn to_hex(&self) -> (text: String)
        ensures
            text@ == hex(self@),
            text@.len() == 2 * OID_LENGTH,
    {
        let mut text = String::new();
        append_hex(&mut text, self.bytes.as_slice(), 2 * OID_LENGTH);
        assert(hex(self@).take(2 * OID_LENGTH as int) =~= hex(self@));
        text
    }
}

/// The short form of an identifier: the first eight digits of its
/// hexadecimal form.
pub fn pretty_oid(oid: &ObjectId) -> (text: String)
    ensures
        text@ == hex(oid@).take(PRETTY_OID_CHAR_LENGTH as int),
        text@.len() == PRETTY_OID_CHAR_LENGTH,
{
    let mut text = String::new();
    append_hex(&mut text, oid.as_bytes(), PRETTY_OID_CHAR_LENGTH);
    text
}

/// The link to the listing page of a tree.
pub fn generate_tree_link(oid: &ObjectId) -> (link: String)
    ensures
        link@ == "/tree/"@ + hex(oid@),
{
    let mut link = String::from_str("/tree/");
    append_hex(&mut link, oid.as_bytes(), 2 * OID_LENGTH);
    assert(hex(oid@).take(2 * OID_LENGTH as int) =~= hex(oid@));
    link
}

/// The link to the rendered page of a blob.
pub fn generate_oid_link(oid: &ObjectId) -> (link: String)
    ensures
        link@ == "/oid/"@ + hex(oid@) + ".html"@,
{
    let mut link = String::from_str("/oid/");
    append_hex(&mut link, oid.as_bytes(), 2 * OID_LENGTH);
    assert(hex(oid@).take(2 * OID_LENGTH as int) =~= hex(oid@));
    link.append(".html");
    link
}

} // verus!
