//! Shift-JIS text: reading NUL-terminated strings, and encoding with the
//! italic mapping.
use vstd::prelude::*;
use crate::bytes::bounds_error;
use crate::error::YetiError;
use crate::text::{chars_of, replace_all, replace_chars};

verus! {

/// The italic mapping: a character and the Shift-JIS code point that shows it in italics.
pub type ItalicMap = bimap::BiHashMap<char, u16>;

#[verifier::external_type_specification]
#[verifier::external_body]
#[verifier::reject_recursive_types(L)]
#[verifier::reject_recursive_types(R)]
#[verifier::reject_recursive_types(LS)]
#[verifier::reject_recursive_types(RS)]
pub struct ExBiHashMap<L, R, LS, RS>(bimap::BiHashMap<L, R, LS, RS>);

/// The pairs that an italic mapping holds, from character to code point.
pub uninterp spec fn italic_entries(m: bimap::BiHashMap<char, u16>) -> Map<char, u16>;

/// The Shift-JIS bytes of one character, as encoding_rs writes them.
pub uninterp spec fn sjis_of_char(c: char) -> Seq<u8>;

/// The text that encoding_rs reads from Shift-JIS bytes.
pub uninterp spec fn sjis_text_of(b: Seq<u8>) -> Seq<char>;

/// Relies on bimap::BiHashMap::get_by_left: the code point paired with `c`, if there is one.
#[verifier::external_body]
fn italic_lookup(m: &ItalicMap, c: char) -> (r: Option<u16>)
    ensures
        r == (if italic_entries(*m).contains_key(c) {
            Some(italic_entries(*m)[c])
        } else {
            None
        }),
{
    m.get_by_left(&c).copied()
}

/// Relies on encoding_rs's `SHIFT_JIS.encode` on the one-character string `c`:
/// its Shift-JIS bytes, where an ASCII character stays its own byte.
#[verifier::external_body]
fn sjis_encode_char(c: char) -> (r: Vec<u8>)
    ensures
        r@ == sjis_of_char(c),
        (c as u32) < 0x80 ==> r@ == seq![c as u8],
{
    let mut buf = [0u8; 4];
    encoding_rs::SHIFT_JIS.encode(c.encode_utf8(&mut buf)).0.into_owned()
}

/// Relies on encoding_rs's `SHIFT_JIS.decode`: the text of Shift-JIS bytes.
#[verifier::external_body]
fn sjis_decode(b: &[u8]) -> (r: String)
    ensures
        r@ == sjis_text_of(b@),
{
    encoding_rs::SHIFT_JIS.decode(b).0.into_owned()
}

/// One Shift-JIS code point, of one byte or two.
#[derive(Clone, Copy, Debug, PartialEq, Eq, Structural)]
pub enum SJISChar {
    SingleByte(u8),
    DoubleByte(u16),
}

/// The bytes of a code point from the italic mapping, high byte first.
pub open spec fn code_bytes(code: u16) -> Seq<u8> {
    if code <= 255 {
        seq![code as u8]
    } else {
        seq![(code / 256) as u8, (code % 256) as u8]
    }
}

impl SJISChar {
    /// The bytes of the code point, high byte first.
    pub open spec fn spec_bytes(self) -> Seq<u8> {
        match self {
            SJISChar::SingleByte(b) => seq![b],
            SJISChar::DoubleByte(v) => seq![(v / 256) as u8, (v % 256) as u8],
        }
    }

    /// The code point with this number: one byte where it fits in one.
    pub fn from_number(value: u16) -> (r: SJISChar)
        ensures
            value <= 255 ==> r == SJISChar::SingleByte(value as u8),
            value > 255 ==> r == SJISChar::DoubleByte(value),
            r.spec_bytes() == code_bytes(value),
    {
        if value <= 255 {
            SJISChar::SingleByte(value as u8)
        } else {
            SJISChar::DoubleByte(value)
        }
    }

    /// The bytes of the code point, high byte first.
    pub fn to_vec(&self) -> (r: Vec<u8>)
        ensures
            r@ == self.spec_bytes(),
    {
        match self {
            SJISChar::SingleByte(b) => vec![*b],
            SJISChar::DoubleByte(v) => vec![(*v / 256) as u8, (*v % 256) as u8],
        }
    }
}

/// The bytes of one character: its italic code point where italics are on and the
/// mapping has it, else its plain Shift-JIS bytes.
pub open spec fn char_bytes(c: char, italic: bool, t: Map<char, u16>) -> Seq<u8> {
    if italic && t.contains_key(c) {
        code_bytes(t[c])
    } else {
        sjis_of_char(c)
    }
}

/// The encoding of `s` from position `i` on, with italics on or off at that point.
/// A `*` toggles italics and writes nothing; `\*` writes a literal asterisk; any other
/// character, a backslash included, writes its own bytes.
pub open spec fn encode_from(s: Seq<char>, i: int, italic: bool, t: Map<char, u16>) -> Seq<u8>
    decreases s.len() - i,
{
    if i < 0 || i >= s.len() {
        seq![]
    } else if s[i] == '\\' && i + 1 < s.len() && s[i + 1] == '*' {
        seq![0x2Au8] + encode_from(s, i + 2, italic, t)
    } else if s[i] == '*' {
        encode_from(s, i + 1, !italic, t)
    } else {
        char_bytes(s[i], italic, t) + encode_from(s, i + 1, italic, t)
    }
}

/// `s` with the markup of the editable form undone: `<dquote/>` becomes a double quote
/// and then `<bslash/>` a backslash.
pub open spec fn unmarked(s: Seq<char>) -> Seq<char> {
    replace_all(replace_all(s, "<dquote/>"@, seq!['\u{22}']), "<bslash/>"@, seq!['\\'])
}

/// The Shift-JIS encoding of `s` under the italic mapping `t`, without a trailing NUL,
/// once its markup is undone.
pub open spec fn sjis_encoding(s: Seq<char>, t: Map<char, u16>) -> Seq<u8> {
    encode_from(unmarked(s), 0, false, t)
}

/// Encodes text to Shift-JIS: `<dquote/>` and `<bslash/>` stand for a double quote and a
/// backslash; then `*` toggles italics and `\*` is a literal asterisk.
pub fn encode_sjis(unicode: &str, italics: &ItalicMap) -> (r: Vec<u8>)
    ensures
        r@ == sjis_encoding(unicode@, italic_entries(*italics)),
{
    let ghost t = italic_entries(*italics);
    let raw = chars_of(unicode);
    let dq = chars_of("<dquote/>");
    let bs = chars_of("<bslash/>");
    let quote = vec!['\u{22}'];
    let backslash = vec!['\\'];
    assert(quote@ =~= seq!['\u{22}']);
    assert(backslash@ =~= seq!['\\']);
    let step = replace_chars(&raw, &dq, &quote);
    let text = replace_chars(&step, &bs, &backslash);
    let ghost u = text@;
    assert(u == unmarked(unicode@));
    let n = text.len();
    let mut out: Vec<u8> = Vec::new();
    let mut italic = false;
    let mut i: usize = 0;
    while i < n
        invariant
            n == u.len(),
            u == text@,
            i <= n,
            t == italic_entries(*italics),
            out@ + encode_from(u, i as int, italic, t) == encode_from(u, 0, false, t),
        decreases n - i,
    {
        let c = text[i];
        let ghost pre = out@;
        let ghost k = i as int;
        if c == '\\' && i + 1 < n && text[i + 1] == '*' {
            out.push(0x2Au8);
            i += 2;
            assert(out@ + encode_from(u, i as int, italic, t) =~= pre + encode_from(u, k, italic, t));
        } else if c == '*' {
            italic = !italic;
            i += 1;
        } else {
            let found = if italic {
                italic_lookup(italics, c)
            } else {
                None
            };
            let mut bytes = match found {
                Some(code) => {
                    let sc = SJISChar::from_number(code);
                    let v = sc.to_vec();
                    assert(v@ == code_bytes(code));
                    v
                },
                None => {
                    sjis_encode_char(c)
                },
            };
            assert(bytes@ == char_bytes(c, italic, t));
            out.append(&mut bytes);
            i += 1;
            assert(out@ + encode_from(u, i as int, italic, t) =~= pre + encode_from(u, k, italic, t));
        }
    }
    assert(encode_from(u, i as int, italic, t) == Seq::<u8>::empty());
    assert(out@ + Seq::<u8>::empty() =~= out@);
    out
}

/// Whether a NUL-terminated string of `n` bytes (NUL not counted) starts at `a`: `n`
/// bytes without NUL, then a NUL, or the cap of 1024 bytes reached first.
pub open spec fn cstr_at(s: Seq<u8>, a: int, n: int) -> bool {
    0 <= n <= 1024 && 0 <= a && a + n <= s.len() && (forall|j: int| 0 <= j < n ==> #[trigger] s[a + j] != 0)
        && (n == 1024 || (a + n < s.len() && s[a + n] == 0))
}

/// Reads the NUL-terminated Shift-JIS string at `address`, at most 1024 bytes before the
/// NUL. Returns its bytes with one NUL at the end, and its text.
pub fn get_sjis_bytes(address: usize, input: &[u8]) -> (r: Result<(Vec<u8>, String), YetiError>)
    ensures
        r is Ok ==> {
            let n = r->Ok_0.0@.len() - 1;
            &&& cstr_at(input@, address as int, n)
            &&& r->Ok_0.0@ == input@.subrange(address as int, address + n).push(0)
            &&& r->Ok_0.1@ == sjis_text_of(input@.subrange(address as int, address + n))
        },
        r is Err ==> (forall|n: int| !cstr_at(input@, address as int, n)) && r == Err::<
            (Vec<u8>, String),
            YetiError,
        >(bounds_error(address, input@.len() as usize)),
{
    if address > input.len() {
        assert forall|n: int| !cstr_at(input@, address as int, n) by {}
        return Err(YetiError::ParseBounds { address, len: input.len() });
    }
    let mut size: usize = 0;
    let mut raw: Vec<u8> = Vec::new();
    while size < 1024
        invariant
            size <= 1024,
            address <= input@.len(),
            address + size <= input@.len(),
            raw@ == input@.subrange(address as int, address + size),
            forall|j: int| 0 <= j < size ==> #[trigger] input@[address + j] != 0,
        ensures
            size <= 1024,
            address + size <= input@.len(),
            raw@ == input@.subrange(address as int, address + size),
            forall|j: int| 0 <= j < size ==> #[trigger] input@[address + j] != 0,
            size == 1024 || (address + size < input@.len() && input@[address + size] == 0),
        decreases 1024 - size,
    {
        if size >= input.len() - address {
            assert forall|n: int| !cstr_at(input@, address as int, n) by {
                if cstr_at(input@, address as int, n) {
                    if n < size {
                        assert(input@[address + n] == 0);
                    }
                }
            }
            return Err(YetiError::ParseBounds { address, len: input.len() });
        }
        let b = input[address + size];
        if b == 0 {
            break;
        }
        raw.push(b);
        size += 1;
        assert(raw@ =~= input@.subrange(address as int, address + size));
    }
    let text = sjis_decode(raw.as_slice());
    raw.push(0);
    assert(cstr_at(input@, address as int, size as int));
    Ok((raw, text))
}

} // verus!
