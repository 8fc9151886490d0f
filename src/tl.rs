//! The translator's document: a plain-text listing of a script's dialogue, speakers and
//! choices, each under the address of its opcode, with room for a translation and notes.
use vstd::prelude::*;
use crate::opcodes::{spec_address, Choice, Opcode, String47Opcode, StringOpcode, StringOpcode2};
use crate::script::Script;
use crate::text::{chars_of, push_chars, string_of, trim_chars};

verus! {

/// The hex digit for `d`, in upper case.
pub open spec fn hex_char(d: int) -> char {
    if d < 10 {
        (('0' as int) + d) as char
    } else {
        (('A' as int) + d - 10) as char
    }
}

/// The last `k` hex digits of `v`, upper case, most significant first.
pub open spec fn hex_digits(v: nat, k: nat) -> Seq<char>
    decreases k,
{
    if k == 0 {
        seq![]
    } else {
        hex_digits(v / 16, (k - 1) as nat).push(hex_char((v % 16) as int))
    }
}

/// A text field of an opcode as the document shows it: empty where it is unset.
pub open spec fn shown(o: Option<String>) -> Seq<char> {
    match o {
        Some(s) => s@,
        None => seq![],
    }
}

/// A speaker waiting to be shown: its name, its translation and its address.
pub struct Speaker {
    pub unicode: Seq<char>,
    pub translation: Seq<char>,
    pub address: u32,
}

/// The line that names a speaker.
pub open spec fn speaker_line(sp: Speaker) -> Seq<char> {
    "[speaker @ 0x"@ + hex_digits(sp.address as nat, 8) + "]: "@ + sp.translation + " ("@
        + sp.unicode + ")"@
}

/// The lines of a line of dialogue, after the line of the speaker waiting, if any.
pub open spec fn text_block(sp: Speaker, address: u32, unicode: Seq<char>, translation: Option<String>, notes: Option<String>) -> Seq<Seq<char>> {
    (if sp.unicode.len() > 0 {
        seq![speaker_line(sp)]
    } else {
        seq![]
    }) + seq![
        "[original text @ 0x"@ + hex_digits(address as nat, 8) + "]: "@ + unicode,
        "[translation]: "@ + shown(translation),
        "[notes]: "@ + shown(notes),
        "---===---"@,
        "\n"@,
    ]
}

/// The four lines of one choice.
pub open spec fn choice_lines(c: Choice) -> Seq<Seq<char>> {
    seq![
        "[choice original text]: "@ + c.unicode@,
        "[choice translation]: "@ + shown(c.translation),
        "[choice notes]: "@ + shown(c.notes),
        "---~~~---"@,
    ]
}

/// The lines of the first `k` choices.
pub open spec fn choices_lines(cs: Seq<Choice>, k: int) -> Seq<Seq<char>>
    decreases k,
{
    if k <= 0 {
        seq![]
    } else {
        choices_lines(cs, k - 1) + choice_lines(cs[k - 1])
    }
}

/// What one opcode adds to the document, and the speaker waiting after it. A speaker's
/// name (a `0x47` name opcode) waits for the next line of dialogue; dialogue (`0x47`,
/// `0x45`, `0x86`) and choice menus (`0x31`, `0x32`) each make a block.
pub open spec fn tl_step(op: Opcode, sp: Speaker) -> (Seq<Seq<char>>, Speaker) {
    let cleared = Speaker { unicode: seq![], ..sp };
    match op {
        Opcode::Text47(o) => if o.opcode != 0x47 {
            (seq![], sp)
        } else if o.opt_arg2 is None {
            (seq![], Speaker { unicode: o.unicode@, translation: shown(o.translation), address: o.address })
        } else {
            (text_block(sp, o.address, o.unicode@, o.translation, o.notes), cleared)
        },
        Opcode::Text2(o) => if o.opcode == 0x47 {
            (text_block(sp, o.address, o.unicode@, o.translation, o.notes), cleared)
        } else {
            (seq![], sp)
        },
        Opcode::Text(o) => if o.opcode == 0x45 || o.opcode == 0x86 {
            (text_block(sp, o.address, o.unicode@, o.translation, o.notes), cleared)
        } else {
            (seq![], sp)
        },
        Opcode::Choice(o) => if o.opcode == 0x31 || o.opcode == 0x32 {
            (
                seq!["[choices @ 0x"@ + hex_digits(o.address as nat, 8) + "]"@] + choices_lines(
                    o.choices@,
                    o.choices@.len() as int,
                ) + seq!["---===---"@, "\n"@],
                sp,
            )
        } else {
            (seq![], sp)
        },
        _ => (seq![], sp),
    }
}

/// The lines of the document for the first `n` opcodes, and the speaker waiting after them.
pub open spec fn tl_lines(ops: Seq<Opcode>, n: int) -> (Seq<Seq<char>>, Speaker)
    decreases n,
{
    if n <= 0 {
        (seq![], Speaker { unicode: seq![], translation: seq![], address: 0 })
    } else {
        let (lines, sp) = tl_lines(ops, n - 1);
        let (more, sp2) = tl_step(ops[n - 1], sp);
        (lines + more, sp2)
    }
}

/// Lines joined by newlines.
pub open spec fn joined(lines: Seq<Seq<char>>) -> Seq<char>
    decreases lines.len(),
{
    if lines.len() == 0 {
        seq![]
    } else if lines.len() == 1 {
        lines[0]
    } else {
        joined(lines.drop_last()) + seq!['\n'] + lines.last()
    }
}

/// The translator's document of a script.
pub open spec fn tl_document(s: Script) -> Seq<char> {
    joined(tl_lines(s.opcodes@, s.opcodes@.len() as int).0)
}

fn hex_digit(d: u32) -> (r: char)
    requires
        d < 16,
    ensures
        r == hex_char(d as int),
{
    if d < 10 {
        (('0' as u8) + d as u8) as char
    } else {
        (('A' as u8) + (d - 10) as u8) as char
    }
}

fn push_hex(out: &mut Vec<char>, v: u32, k: u32)
    ensures
        final(out)@ == old(out)@ + hex_digits(v as nat, k as nat),
    decreases k,
{
    if k > 0 {
        push_hex(out, v / 16, k - 1);
        out.push(hex_digit(v % 16));
        assert(final(out)@ =~= old(out)@ + hex_digits(v as nat, k as nat));
    }
}

/// Adds a line to the document built so far from `lines`; `started` says whether there
/// are any.
fn add_line(out: &mut Vec<char>, Ghost(lines): Ghost<Seq<Seq<char>>>, started: bool, line: &Vec<char>)
    requires
        old(out)@ == joined(lines),
        started == (lines.len() > 0),
    ensures
        final(out)@ == joined(lines.push(line@)),
{
    assert(lines.push(line@).drop_last() =~= lines);
    if started {
        out.push('\n');
    }
    push_chars(out, line);
}

fn text_of(o: &Option<String>) -> (r: Vec<char>)
    ensures
        r@ == shown(*o),
{
    match o {
        Some(s) => chars_of(s.as_str()),
        None => Vec::new(),
    }
}

/// `a` followed by `b`.
fn cat(a: &str, b: &Vec<char>) -> (r: Vec<char>)
    ensures
        r@ == a@ + b@,
{
    let mut r = chars_of(a);
    push_chars(&mut r, b);
    r
}

/// `prefix`, the eight hex digits of `v`, then `suffix`.
fn addressed(prefix: &str, v: u32, suffix: &str) -> (r: Vec<char>)
    ensures
        r@ == prefix@ + hex_digits(v as nat, 8) + suffix@,
{
    let mut r = chars_of(prefix);
    push_hex(&mut r, v, 8);
    let s = chars_of(suffix);
    push_chars(&mut r, &s);
    r
}

/// The lines a list of built lines stands for.
pub open spec fn lines_of(b: Seq<Vec<char>>) -> Seq<Seq<char>> {
    Seq::new(b.len(), |i: int| b[i]@)
}

/// Adds every line of `block` to the document built so far from `lines`.
fn add_all(out: &mut Vec<char>, Ghost(lines): Ghost<Seq<Seq<char>>>, started: bool, block: &Vec<Vec<char>>) -> (r: bool)
    requires
        old(out)@ == joined(lines),
        started == (lines.len() > 0),
    ensures
        final(out)@ == joined(lines + lines_of(block@)),
        r == ((lines + lines_of(block@)).len() > 0),
{
    let mut i: usize = 0;
    let mut c = started;
    while i < block.len()
        invariant
            i <= block@.len(),
            out@ == joined(lines + lines_of(block@).take(i as int)),
            c == ((lines + lines_of(block@).take(i as int)).len() > 0),
        decreases block@.len() - i,
    {
        let ghost sofar = lines + lines_of(block@).take(i as int);
        add_line(out, Ghost(sofar), c, &block[i]);
        assert(sofar.push(block@[i as int]@) =~= lines + lines_of(block@).take(i + 1));
        c = true;
        i += 1;
    }
    assert(lines_of(block@).take(block@.len() as int) =~= lines_of(block@));
    c
}

/// The lines of a line of dialogue, as `text_block` says.
fn text_block_lines(
    sp_u: &Vec<char>,
    sp_t: &Vec<char>,
    sp_a: u32,
    address: u32,
    unicode: &String,
    translation: &Option<String>,
    notes: &Option<String>,
) -> (r: Vec<Vec<char>>)
    ensures
        lines_of(r@) == text_block(
            Speaker { unicode: sp_u@, translation: sp_t@, address: sp_a },
            address,
            unicode@,
            *translation,
            *notes,
        ),
{
    let mut r: Vec<Vec<char>> = Vec::new();
    if sp_u.len() > 0 {
        let mut l = addressed("[speaker @ 0x", sp_a, "]: ");
        push_chars(&mut l, sp_t);
        let open = chars_of(" (");
        push_chars(&mut l, &open);
        push_chars(&mut l, sp_u);
        let close = chars_of(")");
        push_chars(&mut l, &close);
        r.push(l);
    }
    let mut l = addressed("[original text @ 0x", address, "]: ");
    let u = chars_of(unicode.as_str());
    push_chars(&mut l, &u);
    r.push(l);
    r.push(cat("[translation]: ", &text_of(translation)));
    r.push(cat("[notes]: ", &text_of(notes)));
    r.push(chars_of("---===---"));
    r.push(chars_of("\n"));
    let ghost sp = Speaker { unicode: sp_u@, translation: sp_t@, address: sp_a };
    assert(lines_of(r@) =~= text_block(sp, address, unicode@, *translation, *notes));
    r
}

/// The lines of a choice menu.
fn choice_block_lines(address: u32, cs: &Vec<Choice>) -> (r: Vec<Vec<char>>)
    ensures
        lines_of(r@) == seq!["[choices @ 0x"@ + hex_digits(address as nat, 8) + "]"@]
            + choices_lines(cs@, cs@.len() as int) + seq!["---===---"@, "\n"@],
{
    let mut r: Vec<Vec<char>> = Vec::new();
    r.push(addressed("[choices @ 0x", address, "]"));
    let mut k: usize = 0;
    while k < cs.len()
        invariant
            k <= cs@.len(),
            lines_of(r@) == seq!["[choices @ 0x"@ + hex_digits(address as nat, 8) + "]"@]
                + choices_lines(cs@, k as int),
        decreases cs@.len() - k,
    {
        let c = &cs[k];
        let ghost before = lines_of(r@);
        let u = chars_of(c.unicode.as_str());
        r.push(cat("[choice original text]: ", &u));
        r.push(cat("[choice translation]: ", &text_of(&c.translation)));
        r.push(cat("[choice notes]: ", &text_of(&c.notes)));
        r.push(chars_of("---~~~---"));
        assert(lines_of(r@) =~= before + choice_lines(cs@[k as int]));
        k += 1;
    }
    r.push(chars_of("---===---"));
    r.push(chars_of("\n"));
    assert(lines_of(r@) =~= seq!["[choices @ 0x"@ + hex_digits(address as nat, 8) + "]"@]
        + choices_lines(cs@, cs@.len() as int) + seq!["---===---"@, "\n"@]);
    r
}

/// Writes a script's dialogue, speakers and choices as the translator's document: a block
/// per line of dialogue (`[speaker @ 0x…]`, `[original text @ 0x…]`, `[translation]`,
/// `[notes]`) or per choice menu (`[choices @ 0x…]` and each choice's three lines), each
/// block closed by `---===---`, each choice by `---~~~---`.
#[verifier::spinoff_prover]
pub fn tl_transform_script(input: &Script) -> (r: String)
    ensures
        r@ == tl_document(*input),
{
    let ops = &input.opcodes;
    let n = ops.len();
    let mut out: Vec<char> = Vec::new();
    let mut started = false;
    let mut sp_u: Vec<char> = Vec::new();
    let mut sp_t: Vec<char> = Vec::new();
    let mut sp_a: u32 = 0;
    let mut i: usize = 0;
    while i < n
        invariant
            n == ops@.len(),
            i <= n,
            ({
                let (lines, sp) = tl_lines(ops@, i as int);
                &&& out@ == joined(lines)
                &&& started == (lines.len() > 0)
                &&& sp == Speaker { unicode: sp_u@, translation: sp_t@, address: sp_a }
            }),
        decreases n - i,
    {
        let ghost lines = tl_lines(ops@, i as int).0;
        let ghost sp = tl_lines(ops@, i as int).1;
        let block: Vec<Vec<char>> = match &ops[i] {
            Opcode::Text47(o) => {
                if o.opcode != 0x47 {
                    Vec::new()
                } else if o.opt_arg2.is_none() {
                    sp_u = chars_of(o.unicode.as_str());
                    sp_t = text_of(&o.translation);
                    sp_a = o.address;
                    Vec::new()
                } else {
                    let b = text_block_lines(&sp_u, &sp_t, sp_a, o.address, &o.unicode, &o.translation, &o.notes);
                    sp_u = Vec::new();
                    b
                }
            },
            Opcode::Text2(o) => {
                if o.opcode == 0x47 {
                    let b = text_block_lines(&sp_u, &sp_t, sp_a, o.address, &o.unicode, &o.translation, &o.notes);
                    sp_u = Vec::new();
                    b
                } else {
                    Vec::new()
                }
            },
            Opcode::Text(o) => {
                if o.opcode == 0x45 || o.opcode == 0x86 {
                    let b = text_block_lines(&sp_u, &sp_t, sp_a, o.address, &o.unicode, &o.translation, &o.notes);
                    sp_u = Vec::new();
                    b
                } else {
                    Vec::new()
                }
            },
            Opcode::Choice(o) => {
                if o.opcode == 0x31 || o.opcode == 0x32 {
                    choice_block_lines(o.address, &o.choices)
                } else {
                    Vec::new()
                }
            },
            _ => Vec::new(),
        };
        assert(lines_of(block@) == tl_step(ops@[i as int], sp).0);
        assert(Speaker { unicode: sp_u@, translation: sp_t@, address: sp_a } == tl_step(ops@[i as int], sp).1);
        started = add_all(&mut out, Ghost(lines), started, &block);
        i += 1;
    }
    string_of(&out)
}

/// The value of a hex digit, if `c` is one.
pub open spec fn hex_value(c: char) -> Option<int> {
    let v = c as int;
    if ('0' as int) <= v <= ('9' as int) {
        Some(v - ('0' as int))
    } else if ('a' as int) <= v <= ('f' as int) {
        Some(v - ('a' as int) + 10)
    } else if ('A' as int) <= v <= ('F' as int) {
        Some(v - ('A' as int) + 10)
    } else {
        None
    }
}

/// Whether every character of `s` is a hex digit.
pub open spec fn all_hex(s: Seq<char>) -> bool {
    forall|i: int| 0 <= i < s.len() ==> (#[trigger] hex_value(s[i])) is Some
}

/// The number that the hex digits `s` write.
pub open spec fn hex_number(s: Seq<char>) -> int
    decreases s.len(),
{
    if s.len() == 0 {
        0
    } else {
        hex_number(s.drop_last()) * 16 + hex_value(s.last())->Some_0
    }
}

/// The `u32` that `s` writes in hex, as `u32::from_str_radix(s, 16)` reads it: an optional
/// `+`, then at least one hex digit; `None` for anything else or a value past `u32::MAX`.
pub open spec fn parse_hex(s: Seq<char>) -> Option<u32> {
    let d = if s.len() > 0 && s[0] == '+' {
        s.drop_first()
    } else {
        s
    };
    if d.len() > 0 && all_hex(d) && hex_number(d) <= u32::MAX {
        Some(hex_number(d) as u32)
    } else {
        None
    }
}

proof fn lemma_hex_number_grows(s: Seq<char>, k: int)
    requires
        0 <= k <= s.len(),
        all_hex(s),
    ensures
        0 <= hex_number(s.take(k)) <= hex_number(s),
    decreases s.len() - k,
{
    if k < s.len() {
        lemma_hex_number_grows(s, k + 1);
        assert(s.take(k + 1).drop_last() =~= s.take(k));
        assert(hex_number(s.take(k + 1)) == hex_number(s.take(k)) * 16 + hex_value(s[k])->Some_0);
    } else {
        assert(s.take(k) =~= s);
        lemma_hex_number_nonneg(s);
    }
}

proof fn lemma_hex_number_nonneg(s: Seq<char>)
    requires
        all_hex(s),
    ensures
        hex_number(s) >= 0,
    decreases s.len(),
{
    if s.len() > 0 {
        assert(all_hex(s.drop_last()));
        lemma_hex_number_nonneg(s.drop_last());
        assert(hex_value(s.last()) is Some);
    }
}

fn digit_value(c: char) -> (r: Option<u64>)
    ensures
        r is Some <==> hex_value(c) is Some,
        r is Some ==> r->Some_0 as int == hex_value(c)->Some_0,
{
    if '0' <= c && c <= '9' {
        Some((c as u32 - '0' as u32) as u64)
    } else if 'a' <= c && c <= 'f' {
        Some((c as u32 - 'a' as u32 + 10) as u64)
    } else if 'A' <= c && c <= 'F' {
        Some((c as u32 - 'A' as u32 + 10) as u64)
    } else {
        None
    }
}

/// Reads a hex `u32` as `u32::from_str_radix(s, 16)` does.
fn hex_u32(s: &Vec<char>) -> (r: Option<u32>)
    ensures
        r == parse_hex(s@),
{
    let start: usize = if s.len() > 0 && s[0] == '+' {
        1
    } else {
        0
    };
    let ghost d = if s@.len() > 0 && s@[0] == '+' {
        s@.drop_first()
    } else {
        s@
    };
    assert(d =~= s@.subrange(start as int, s@.len() as int));
    if start >= s.len() {
        return None;
    }
    let mut acc: u64 = 0;
    let mut i: usize = start;
    while i < s.len()
        invariant
            start <= i <= s@.len(),
            start < s@.len(),
            d == s@.subrange(start as int, s@.len() as int),
            d == (if s@.len() > 0 && s@[0] == '+' {
                s@.drop_first()
            } else {
                s@
            }),
            all_hex(d.take(i - start)),
            acc as int == hex_number(d.take(i - start)),
            acc <= u32::MAX,
        decreases s@.len() - i,
    {
        let v = match digit_value(s[i]) {
            Some(v) => v,
            None => {
                assert(hex_value(d[i - start]) is None);
                assert(!all_hex(d));
                return None;
            },
        };
        let ghost k = i - start;
        assert(d.take(k + 1).drop_last() =~= d.take(k));
        assert(d.take(k + 1).last() == d[k]);
        assert(all_hex(d.take(k + 1)));
        if acc > (u32::MAX as u64 - v) / 16 {
            assert(acc * 16 + v > u32::MAX) by (nonlinear_arith)
                requires
                    acc > (u32::MAX as u64 - v) / 16,
                    v < 16,
            ;
            proof {
                if all_hex(d) {
                    lemma_hex_number_grows(d, k + 1);
                }
            }
            return None;
        }
        acc = acc * 16 + v;
        i += 1;
    }
    assert(d.take(d.len() as int) =~= d);
    Some(acc as u32)
}

/// The first position from `from` on where `c` stands in `s`.
pub open spec fn find_char(s: Seq<char>, c: char, from: int) -> Option<int>
    decreases s.len() - from,
{
    if from < 0 || from >= s.len() {
        None
    } else if s[from] == c {
        Some(from)
    } else {
        find_char(s, c, from + 1)
    }
}

fn find_char_exec(s: &Vec<char>, c: char, from: usize) -> (r: Option<usize>)
    ensures
        r is Some <==> find_char(s@, c, from as int) is Some,
        r is Some ==> r->Some_0 as int == find_char(s@, c, from as int)->Some_0,
{
    let mut i = from;
    while i < s.len()
        invariant
            from <= i,
            find_char(s@, c, from as int) == find_char(s@, c, i as int),
        decreases s@.len() - i,
    {
        if s[i] == c {
            return Some(i);
        }
        i += 1;
    }
    None
}

/// What `parse_tl_doc_line` reads from a line: the hex address between the prefix and the
/// first `]` after it, and the text after `]` (and a `:` there, if any); for a speaker, the
/// text up to the first `(` after that, trimmed. `None` where there is no `]`, no valid
/// address, or no `(` for a speaker.
pub open spec fn doc_line(line: Seq<char>, prefix: int, is_speaker: bool) -> Option<(u32, Seq<char>)> {
    match find_char(line, ']', prefix) {
        None => None,
        Some(c) => match parse_hex(crate::text::trim(line.subrange(prefix, c))) {
            None => None,
            Some(address) => if c + 1 == line.len() {
                Some((address, seq![]))
            } else {
                let curr = if line[c + 1] == ':' {
                    c + 2
                } else {
                    c + 1
                };
                if is_speaker {
                    match find_char(line, '(', curr) {
                        None => None,
                        Some(p) => Some((address, crate::text::trim(line.subrange(curr, p)))),
                    }
                } else {
                    Some((address, line.subrange(curr, line.len() as int)))
                }
            },
        },
    }
}

/// Reads the address and the text of a block line of the translator's document, such as
/// `[speaker @ 0x0000012A]: Name (名前)` with the prefix length 13.
pub fn parse_tl_doc_line(line: &str, prefix_size: usize, is_speaker: bool) -> (r: Option<(u32, String)>)
    ensures
        match doc_line(line@, prefix_size as int, is_speaker) {
            None => r is None,
            Some((a, t)) => r is Some && r->Some_0.0 == a && r->Some_0.1@ == t,
        },
{
    let chars = chars_of(line);
    let n = chars.len();
    let c = match find_char_exec(&chars, ']', prefix_size) {
        Some(c) => c,
        None => {
            return None;
        },
    };
    proof {
        lemma_find_char_bounds(chars@, ']', prefix_size as int);
    }
    let mut data: Vec<char> = Vec::new();
    let mut k: usize = prefix_size;
    while k < c
        invariant
            prefix_size <= k <= c < n,
            n == chars@.len(),
            data@ == chars@.subrange(prefix_size as int, k as int),
        decreases c - k,
    {
        data.push(chars[k]);
        k += 1;
        assert(data@ =~= chars@.subrange(prefix_size as int, k as int));
    }
    let trimmed = trim_chars(&data);
    let address = match hex_u32(&trimmed) {
        Some(a) => a,
        None => {
            return None;
        },
    };
    if c + 1 == n {
        return Some((address, string_of(&Vec::new())));
    }
    let curr = if chars[c + 1] == ':' {
        c + 2
    } else {
        c + 1
    };
    let end = if is_speaker {
        match find_char_exec(&chars, '(', curr) {
            Some(p) => p,
            None => {
                return None;
            },
        }
    } else {
        n
    };
    proof {
        if is_speaker {
            lemma_find_char_bounds(chars@, '(', curr as int);
        }
    }
    let mut text: Vec<char> = Vec::new();
    let mut k: usize = curr;
    while k < end
        invariant
            curr <= k <= end <= n,
            n == chars@.len(),
            text@ == chars@.subrange(curr as int, k as int),
        decreases end - k,
    {
        text.push(chars[k]);
        k += 1;
        assert(text@ =~= chars@.subrange(curr as int, k as int));
    }
    if is_speaker {
        let t = trim_chars(&text);
        Some((address, string_of(&t)))
    } else {
        Some((address, string_of(&text)))
    }
}

proof fn lemma_find_char_bounds(s: Seq<char>, c: char, from: int)
    requires
        find_char(s, c, from) is Some,
    ensures
        from <= find_char(s, c, from)->Some_0 < s.len(),
    decreases s.len() - from,
{
    if from >= 0 && from < s.len() && s[from] != c {
        lemma_find_char_bounds(s, c, from + 1);
    }
}

/// `s` without one carriage return at its end.
pub open spec fn strip_cr(s: Seq<char>) -> Seq<char> {
    if s.len() > 0 && s.last() == '\r' {
        s.drop_last()
    } else {
        s
    }
}

/// The lines of a text, as `str::lines` gives them: split at each newline, a carriage
/// return before it dropped, and no empty line after a final newline.
pub open spec fn split_lines(s: Seq<char>) -> Seq<Seq<char>>
    decreases s.len(),
{
    match find_char(s, '\n', 0) {
        None => if s.len() == 0 {
            seq![]
        } else {
            seq![strip_cr(s)]
        },
        Some(p) => if 0 <= p < s.len() {
            seq![strip_cr(s.take(p))] + split_lines(s.skip(p + 1))
        } else {
            seq![]
        },
    }
}

proof fn lemma_find_char_range(s: Seq<char>, c: char, from: int)
    ensures
        find_char(s, c, from) is Some ==> from <= find_char(s, c, from)->Some_0 < s.len()
            && s[find_char(s, c, from)->Some_0] == c,
    decreases s.len() - from,
{
    if from >= 0 && from < s.len() && s[from] != c {
        lemma_find_char_range(s, c, from + 1);
    }
}

/// What the reader of a translator's document is in the middle of.
#[derive(Clone, Copy, Debug, PartialEq, Eq, Structural)]
pub enum LineState {
    Nothing,
    Translation,
    Notes,
    ChoiceTranslation,
    ChoiceNotes,
}

/// A block of the translator's document.
pub struct DocEntry {
    pub speaker_address: u32,
    pub speaker_translation: Seq<char>,
    pub address: u32,
    pub translation: Seq<char>,
    pub notes: Seq<char>,
    pub choices: Seq<(Seq<char>, Seq<char>)>,
}

/// A block with nothing in it yet.
pub open spec fn empty_entry() -> DocEntry {
    DocEntry {
        speaker_address: 0,
        speaker_translation: seq![],
        address: 0,
        translation: seq![],
        notes: seq![],
        choices: seq![],
    }
}

/// Whether `s` starts with `p`.
pub open spec fn starts_with(s: Seq<char>, p: Seq<char>) -> bool {
    p.len() <= s.len() && s.take(p.len() as int) == p
}

/// `e` with `more` added, after a newline, to its last choice's translation or notes.
pub open spec fn extend_choice(e: DocEntry, notes: bool, more: Seq<char>) -> DocEntry {
    let last = e.choices.last();
    let c = if notes {
        (last.0, last.1 + more)
    } else {
        (last.0 + more, last.1)
    };
    DocEntry { choices: e.choices.drop_last().push(c), ..e }
}

/// What one line does to the block being read and the reader's state: the block comes
/// back in the third place where the line closes it. `None` where the line cannot be read.
pub open spec fn doc_step(e: DocEntry, st: LineState, line: Seq<char>) -> Option<(DocEntry, LineState, Option<DocEntry>)> {
    if starts_with(line, "[speaker @ 0x"@) {
        match doc_line(line, 13, true) {
            None => None,
            Some((a, t)) => Some((DocEntry { speaker_address: a, speaker_translation: t, ..e }, st, None)),
        }
    } else if starts_with(line, "[original text @ 0x"@) {
        match doc_line(line, 19, false) {
            None => None,
            Some((a, _)) => Some((DocEntry { address: a, ..e }, st, None)),
        }
    } else if starts_with(line, "[choices @ 0x"@) {
        match doc_line(line, 13, false) {
            None => None,
            Some((a, _)) => Some((DocEntry { address: a, ..e }, st, None)),
        }
    } else if starts_with(line, "[choice translation]:"@) {
        Some((
            DocEntry { choices: e.choices.push((crate::text::trim(line.skip(21)), seq![])), ..e },
            LineState::ChoiceTranslation,
            None,
        ))
    } else if starts_with(line, "[choice notes]:"@) {
        if e.choices.len() == 0 {
            None
        } else {
            Some((extend_choice(e, true, crate::text::trim(line.skip(15))), LineState::ChoiceNotes, None))
        }
    } else if starts_with(line, "[translation]:"@) {
        Some((DocEntry { translation: crate::text::trim(line.skip(14)), ..e }, LineState::Translation, None))
    } else if starts_with(line, "[notes]:"@) {
        Some((
            DocEntry { notes: crate::text::trim(line.skip(8)), ..e },
            if st == LineState::Translation {
                LineState::Notes
            } else {
                st
            },
            None,
        ))
    } else if line == "---===---"@ {
        Some((empty_entry(), LineState::Nothing, Some(e)))
    } else if line == "---~~~---"@ {
        Some((e, LineState::Nothing, None))
    } else {
        let more = seq!['\n'] + line;
        match st {
            LineState::Nothing => Some((e, st, None)),
            LineState::Translation => Some((DocEntry { translation: e.translation + more, ..e }, st, None)),
            LineState::Notes => Some((DocEntry { notes: e.notes + more, ..e }, st, None)),
            LineState::ChoiceTranslation => if e.choices.len() == 0 {
                None
            } else {
                Some((extend_choice(e, false, more), st, None))
            },
            LineState::ChoiceNotes => if e.choices.len() == 0 {
                None
            } else {
                Some((extend_choice(e, true, more), st, None))
            },
        }
    }
}

/// The blocks closed by the first `n` lines, the block being read and the reader's state;
/// `None` where a line cannot be read.
pub open spec fn doc_run(lines: Seq<Seq<char>>, n: int) -> Option<(Seq<DocEntry>, DocEntry, LineState)>
    decreases n,
{
    if n <= 0 {
        Some((seq![], empty_entry(), LineState::Nothing))
    } else {
        match doc_run(lines, n - 1) {
            None => None,
            Some((done, e, st)) => match doc_step(e, st, lines[n - 1]) {
                None => None,
                Some((e2, st2, closed)) => Some((
                    match closed {
                        Some(c) => done.push(c),
                        None => done,
                    },
                    e2,
                    st2,
                )),
            },
        }
    }
}

/// A block of the translator's document as read: the speaker's address and translation,
/// the address of the line or menu, its translation and notes, and each choice's.
pub struct DocLine {
    pub speaker_address: u32,
    pub speaker_translation: String,
    pub address: u32,
    pub translation: String,
    pub notes: String,
    pub choices: Vec<(String, String)>,
}

impl DocLine {
    pub open spec fn view_entry(&self) -> DocEntry {
        DocEntry {
            speaker_address: self.speaker_address,
            speaker_translation: self.speaker_translation@,
            address: self.address,
            translation: self.translation@,
            notes: self.notes@,
            choices: Seq::new(self.choices@.len(), |i: int| (self.choices@[i].0@, self.choices@[i].1@)),
        }
    }
}

/// The block being read, with its texts as characters.
struct Cur {
    speaker_address: u32,
    speaker_translation: Vec<char>,
    address: u32,
    translation: Vec<char>,
    notes: Vec<char>,
    choices: Vec<(Vec<char>, Vec<char>)>,
}

impl Cur {
    spec fn view_entry(&self) -> DocEntry {
        DocEntry {
            speaker_address: self.speaker_address,
            speaker_translation: self.speaker_translation@,
            address: self.address,
            translation: self.translation@,
            notes: self.notes@,
            choices: Seq::new(self.choices@.len(), |i: int| (self.choices@[i].0@, self.choices@[i].1@)),
        }
    }

    fn new() -> (r: Cur)
        ensures
            r.view_entry() == empty_entry(),
    {
        let r = Cur {
            speaker_address: 0,
            speaker_translation: Vec::new(),
            address: 0,
            translation: Vec::new(),
            notes: Vec::new(),
            choices: Vec::new(),
        };
        assert(r.view_entry().choices =~= Seq::<(Seq<char>, Seq<char>)>::empty());
        r
    }

    fn to_line(&self) -> (r: DocLine)
        ensures
            r.view_entry() == self.view_entry(),
    {
        let mut choices: Vec<(String, String)> = Vec::new();
        let mut k: usize = 0;
        while k < self.choices.len()
            invariant
                k <= self.choices@.len(),
                choices@.len() == k,
                forall|j: int|
                    0 <= j < k ==> (#[trigger] choices@[j]).0@ == self.choices@[j].0@ && choices@[j].1@
                        == self.choices@[j].1@,
            decreases self.choices@.len() - k,
        {
            choices.push((string_of(&self.choices[k].0), string_of(&self.choices[k].1)));
            k += 1;
        }
        let r = DocLine {
            speaker_address: self.speaker_address,
            speaker_translation: string_of(&self.speaker_translation),
            address: self.address,
            translation: string_of(&self.translation),
            notes: string_of(&self.notes),
            choices,
        };
        assert(r.view_entry().choices =~= self.view_entry().choices);
        r
    }
}

/// `s` from position `k` on.
fn tail(s: &Vec<char>, k: usize) -> (r: Vec<char>)
    requires
        k <= s@.len(),
    ensures
        r@ == s@.skip(k as int),
{
    let mut r: Vec<char> = Vec::new();
    let mut i = k;
    while i < s.len()
        invariant
            k <= i <= s@.len(),
            r@ == s@.subrange(k as int, i as int),
        decreases s@.len() - i,
    {
        r.push(s[i]);
        i += 1;
        assert(r@ =~= s@.subrange(k as int, i as int));
    }
    assert(r@ =~= s@.skip(k as int));
    r
}

fn starts(s: &Vec<char>, p: &str) -> (r: bool)
    ensures
        r == starts_with(s@, p@),
{
    let pc = chars_of(p);
    if pc.len() > s.len() {
        return false;
    }
    let r = crate::text::matches_at(s, &pc, 0);
    assert(s@.subrange(0, pc@.len() as int) =~= s@.take(pc@.len() as int));
    r
}

fn equals(s: &Vec<char>, p: &str) -> (r: bool)
    ensures
        r == (s@ == p@),
{
    let pc = chars_of(p);
    if pc.len() != s.len() {
        return false;
    }
    let r = crate::text::matches_at(s, &pc, 0);
    assert(s@.subrange(0, pc@.len() as int) =~= s@);
    r
}

/// Adds `more` to the last choice's translation or notes.
fn extend_last(cur: &mut Cur, notes: bool, more: &Vec<char>)
    requires
        old(cur).choices@.len() > 0,
    ensures
        final(cur).view_entry() == extend_choice(old(cur).view_entry(), notes, more@),
{
    let (mut a, mut b) = cur.choices.pop().unwrap();
    if notes {
        push_chars(&mut b, more);
    } else {
        push_chars(&mut a, more);
    }
    cur.choices.push((a, b));
    assert(final(cur).view_entry().choices =~= extend_choice(old(cur).view_entry(), notes, more@).choices);
}

/// Applies one line to the block being read; `false` where the line cannot be read.
#[verifier::spinoff_prover]
#[verifier::rlimit(60)]
fn step(cur: &mut Cur, st: &mut LineState, done: &mut Vec<DocLine>, line: &Vec<char>) -> (r: bool)
    ensures
        match doc_step(old(cur).view_entry(), *old(st), line@) {
            None => !r,
            Some((e2, st2, closed)) => r && final(cur).view_entry() == e2 && *final(st) == st2
                && Seq::new(final(done)@.len(), |i: int| final(done)@[i].view_entry()) == match closed {
                Some(c) => Seq::new(old(done)@.len(), |i: int| old(done)@[i].view_entry()).push(c),
                None => Seq::new(old(done)@.len(), |i: int| old(done)@[i].view_entry()),
            },
        },
{
    let ghost before = Seq::new(done@.len(), |i: int| done@[i].view_entry());
    let text = line;
    if starts(text, "[speaker @ 0x") {
        let s = string_of(text);
        match parse_tl_doc_line(s.as_str(), 13, true) {
            None => false,
            Some((a, t)) => {
                cur.speaker_address = a;
                cur.speaker_translation = chars_of(t.as_str());
                assert(Seq::new(done@.len(), |i: int| done@[i].view_entry()) =~= before);
                true
            },
        }
    } else if starts(text, "[original text @ 0x") {
        let s = string_of(text);
        match parse_tl_doc_line(s.as_str(), 19, false) {
            None => false,
            Some((a, _)) => {
                cur.address = a;
                assert(Seq::new(done@.len(), |i: int| done@[i].view_entry()) =~= before);
                true
            },
        }
    } else if starts(text, "[choices @ 0x") {
        let s = string_of(text);
        match parse_tl_doc_line(s.as_str(), 13, false) {
            None => false,
            Some((a, _)) => {
                cur.address = a;
                assert(Seq::new(done@.len(), |i: int| done@[i].view_entry()) =~= before);
                true
            },
        }
    } else if starts(text, "[choice translation]:") {
        proof {
            reveal_strlit("[choice translation]:");
        }
        let t = trim_chars(&tail(text, 21));
        let ghost old_e = cur.view_entry();
        cur.choices.push((t, Vec::new()));
        *st = LineState::ChoiceTranslation;
        assert(cur.view_entry().choices =~= old_e.choices.push((crate::text::trim(line@.skip(21)), seq![])));
        assert(Seq::new(done@.len(), |i: int| done@[i].view_entry()) =~= before);
        true
    } else if starts(text, "[choice notes]:") {
        proof {
            reveal_strlit("[choice notes]:");
        }
        if cur.choices.len() == 0 {
            return false;
        }
        let t = trim_chars(&tail(text, 15));
        extend_last(cur, true, &t);
        *st = LineState::ChoiceNotes;
        assert(Seq::new(done@.len(), |i: int| done@[i].view_entry()) =~= before);
        true
    } else if starts(text, "[translation]:") {
        proof {
            reveal_strlit("[translation]:");
        }
        cur.translation = trim_chars(&tail(text, 14));
        *st = LineState::Translation;
        assert(Seq::new(done@.len(), |i: int| done@[i].view_entry()) =~= before);
        true
    } else if starts(text, "[notes]:") {
        proof {
            reveal_strlit("[notes]:");
        }
        if *st == LineState::Translation {
            *st = LineState::Notes;
        }
        cur.notes = trim_chars(&tail(text, 8));
        assert(Seq::new(done@.len(), |i: int| done@[i].view_entry()) =~= before);
        true
    } else if equals(text, "---===---") {
        done.push(cur.to_line());
        *cur = Cur::new();
        *st = LineState::Nothing;
        assert(Seq::new(done@.len(), |i: int| done@[i].view_entry()) =~= before.push(old(cur).view_entry()));
        true
    } else if equals(text, "---~~~---") {
        *st = LineState::Nothing;
        assert(Seq::new(done@.len(), |i: int| done@[i].view_entry()) =~= before);
        true
    } else {
        let mut more = vec!['\n'];
        push_chars(&mut more, text);
        assert(more@ =~= seq!['\n'] + line@);
        assert(Seq::new(done@.len(), |i: int| done@[i].view_entry()) =~= before);
        match *st {
            LineState::Nothing => true,
            LineState::Translation => {
                push_chars(&mut cur.translation, &more);
                true
            },
            LineState::Notes => {
                push_chars(&mut cur.notes, &more);
                true
            },
            LineState::ChoiceTranslation => {
                if cur.choices.len() == 0 {
                    return false;
                }
                extend_last(cur, false, &more);
                true
            },
            LineState::ChoiceNotes => {
                if cur.choices.len() == 0 {
                    return false;
                }
                extend_last(cur, true, &more);
                true
            },
        }
    }
}

proof fn lemma_find_skip(s: Seq<char>, c: char, k: int, j: int)
    requires
        0 <= k <= s.len(),
        0 <= j,
    ensures
        find_char(s.skip(k), c, j) == (match find_char(s, c, k + j) {
            Some(p) => Some(p - k),
            None => None::<int>,
        }),
    decreases s.len() - k - j,
{
    if k + j < s.len() && s[k + j] != c {
        lemma_find_skip(s, c, k, j + 1);
    }
}

/// `s[a..b]` without a carriage return at its end.
fn line_at(s: &Vec<char>, a: usize, b: usize) -> (r: Vec<char>)
    requires
        a <= b <= s@.len(),
    ensures
        r@ == strip_cr(s@.subrange(a as int, b as int)),
{
    let mut r: Vec<char> = Vec::new();
    let mut i = a;
    while i < b
        invariant
            a <= i <= b <= s@.len(),
            r@ == s@.subrange(a as int, i as int),
        decreases b - i,
    {
        r.push(s[i]);
        i += 1;
        assert(r@ =~= s@.subrange(a as int, i as int));
    }
    if r.len() > 0 && r[r.len() - 1] == '\r' {
        r.pop();
    }
    r
}

/// The views of read blocks.
pub open spec fn entries_of(d: Seq<DocLine>) -> Seq<DocEntry> {
    Seq::new(d.len(), |i: int| d[i].view_entry())
}

/// Once a line cannot be read, no later point of the document can be reached.
proof fn lemma_doc_run_stuck(lines: Seq<Seq<char>>, k: int, j: int)
    requires
        1 <= k <= j,
        doc_run(lines, k) is None,
    ensures
        doc_run(lines, j) is None,
    decreases j - k,
{
    if k < j {
        lemma_doc_run_stuck(lines, k, j - 1);
    }
}

/// Reads the blocks of a translator's document, as `doc_run` says; `None` where a line
/// names no valid address or notes come before any choice.
#[verifier::spinoff_prover]
#[verifier::rlimit(100)]
pub fn read_tl_doc(doc: &str) -> (r: Option<Vec<DocLine>>)
    ensures
        ({
            let lines = split_lines(doc@);
            match doc_run(lines, lines.len() as int) {
                None => r is None,
                Some((done, _, _)) => r is Some && entries_of(r->Some_0@) == done,
            }
        }),
{
    let s = chars_of(doc);
    let n = s.len();
    let ghost all = split_lines(s@);
    let mut cur = Cur::new();
    let mut st = LineState::Nothing;
    let mut done: Vec<DocLine> = Vec::new();
    let mut start: usize = 0;
    let ghost mut m: int = 0;
    let mut finished = false;
    assert(s@.skip(0) =~= s@);
    assert(all.take(0) + all =~= all);
    while !finished
        invariant
            n == s@.len(),
            s@ == doc@,
            all == split_lines(s@),
            start <= n,
            0 <= m <= all.len(),
            !finished ==> all == all.take(m) + split_lines(s@.skip(start as int)),
            finished ==> m == all.len(),
            doc_run(all, m) == Some((entries_of(done@), cur.view_entry(), st)),
        decreases n - start + (if finished { 0int } else { 1int }),
    {
        proof {
            lemma_find_skip(s@, '\n', start as int, 0);
            lemma_find_char_range(s@, '\n', start as int);
        }
        let ghost rest = s@.skip(start as int);
        let (line, next) = match find_char_exec(&s, '\n', start) {
            Some(p) => {
                assert(s@.skip(start as int).take(p - start) =~= s@.subrange(start as int, p as int));
                assert(s@.skip(start as int).skip(p - start + 1) =~= s@.skip(p + 1));
                (line_at(&s, start, p), Some(p + 1))
            },
            None => {
                assert(rest =~= s@.subrange(start as int, n as int));
                (line_at(&s, start, n), None)
            },
        };
        if next.is_none() && start == n {
            assert(split_lines(rest) =~= Seq::<Seq<char>>::empty());
            assert(all =~= all.take(m));
            finished = true;
        } else {
            assert(all[m] == line@);
            let ghost before = entries_of(done@);
            let ok = step(&mut cur, &mut st, &mut done, &line);
            if !ok {
                proof {
                    lemma_doc_run_stuck(all, m + 1, all.len() as int);
                }
                return None;
            }
            proof {
                m = m + 1;
            }
            match next {
                Some(p) => {
                    assert(all == all.take(m) + split_lines(s@.skip(p as int))) by {
                        assert(all.take(m) =~= all.take(m - 1).push(line@));
                    }
                    start = p;
                },
                None => {
                    assert(all =~= all.take(m));
                    start = n;
                    finished = true;
                },
            }
        }
    }
    assert(all.take(m) =~= all);
    Some(done)
}

/// Whether the document can name `op`: dialogue and speakers (`0x47`, `0x45`, `0x86`) and
/// choice menus (`0x31`, `0x32`).
pub open spec fn named_by_doc(op: Opcode) -> bool {
    match op {
        Opcode::Text47(o) => o.opcode == 0x47,
        Opcode::Text2(o) => o.opcode == 0x47,
        Opcode::Text(o) => o.opcode == 0x45 || o.opcode == 0x86,
        Opcode::Choice(o) => o.opcode == 0x31 || o.opcode == 0x32,
        _ => false,
    }
}

/// The last of the first `n` opcodes that the document can name at address `a`; -1 where
/// there is none.
pub open spec fn doc_target(ops: Seq<Opcode>, a: u32, n: int) -> int
    decreases n,
{
    if n <= 0 {
        -1
    } else if named_by_doc(ops[n - 1]) && spec_address(ops[n - 1]) == a {
        n - 1
    } else {
        doc_target(ops, a, n - 1)
    }
}

/// A text of the document as a field: unset where it is blank.
pub open spec fn field(s: Seq<char>) -> Option<Seq<char>> {
    if crate::text::trim(s).len() > 0 {
        Some(s)
    } else {
        None
    }
}

/// The view of an optional text.
pub open spec fn opt_view(o: Option<String>) -> Option<Seq<char>> {
    match o {
        Some(s) => Some(s@),
        None => None,
    }
}

/// Whether `new` is `old` but for the translation and notes of its choices, the `j`-th of
/// which come from `texts[j]` where there is one.
pub open spec fn choices_written(old: Seq<Choice>, new: Seq<Choice>, texts: Seq<(Seq<char>, Seq<char>)>) -> bool {
    &&& new.len() == old.len()
    &&& forall|j: int|
        0 <= j < old.len() ==> {
            &&& (Choice { translation: None, notes: None, ..#[trigger] new[j] }) == (Choice {
                translation: None,
                notes: None,
                ..old[j]
            })
            &&& j < texts.len() ==> opt_view(new[j].translation) == field(texts[j].0) && opt_view(
                new[j].notes,
            ) == field(texts[j].1)
            &&& j >= texts.len() ==> new[j] == old[j]
        }
}

/// Whether `new` is the opcode `old` with the texts of the block `e` written in, as the
/// block's own opcode.
pub open spec fn texts_written(old: Opcode, new: Opcode, e: DocEntry) -> bool {
    match old {
        Opcode::Text47(o) => new == Opcode::Text47(String47Opcode {
            translation: new->Text47_0.translation,
            notes: new->Text47_0.notes,
            ..o
        }) && opt_view(new->Text47_0.translation) == field(e.translation) && opt_view(
            new->Text47_0.notes,
        ) == field(e.notes),
        Opcode::Text2(o) => new == Opcode::Text2(StringOpcode2 {
            translation: new->Text2_0.translation,
            notes: new->Text2_0.notes,
            ..o
        }) && opt_view(new->Text2_0.translation) == field(e.translation) && opt_view(
            new->Text2_0.notes,
        ) == field(e.notes),
        Opcode::Text(o) => new == Opcode::Text(StringOpcode {
            translation: new->Text_0.translation,
            notes: new->Text_0.notes,
            ..o
        }) && opt_view(new->Text_0.translation) == field(e.translation) && opt_view(
            new->Text_0.notes,
        ) == field(e.notes),
        Opcode::Choice(o) => new is Choice && new->Choice_0.address == o.address
            && new->Choice_0.actual_address == o.actual_address && new->Choice_0.opcode == o.opcode
            && new->Choice_0.pre_header == o.pre_header && new->Choice_0.n_choices == o.n_choices
            && new->Choice_0.header == o.header && choices_written(
            o.choices@,
            new->Choice_0.choices@,
            e.choices,
        ),
        _ => new == old,
    }
}

/// Whether `new` is the script `old` with the block `e` of the document written in: the
/// speaker's translation into the speaker it names, then the translation and notes (each
/// unset where blank), or each choice's, into the opcode it names. An address names the
/// last opcode the document can name there.
pub open spec fn entry_applied(old: Seq<Opcode>, new: Seq<Opcode>, e: DocEntry) -> bool {
    let main = doc_target(old, e.address, old.len() as int);
    let sp = doc_target(old, e.speaker_address, old.len() as int);
    &&& new.len() == old.len()
    &&& forall|i: int|
        0 <= i < old.len() ==> if i == main {
            texts_written(old[i], #[trigger] new[i], e)
        } else if i == sp && e.speaker_address != 0 && old[i] is Text47 {
            new[i] == Opcode::Text47(String47Opcode {
                translation: new[i]->Text47_0.translation,
                ..old[i]->Text47_0
            }) && opt_view(new[i]->Text47_0.translation) == Some(e.speaker_translation)
        } else {
            new[i] == old[i]
        }
}

fn is_named(op: &Opcode) -> (r: bool)
    ensures
        r == named_by_doc(*op),
{
    match op {
        Opcode::Text47(o) => o.opcode == 0x47,
        Opcode::Text2(o) => o.opcode == 0x47,
        Opcode::Text(o) => o.opcode == 0x45 || o.opcode == 0x86,
        Opcode::Choice(o) => o.opcode == 0x31 || o.opcode == 0x32,
        _ => false,
    }
}

/// The last opcode that the document can name at address `a`.
fn find_target(ops: &Vec<Opcode>, a: u32) -> (r: Option<usize>)
    ensures
        r is Some ==> r->Some_0 as int == doc_target(ops@, a, ops@.len() as int) && r->Some_0
            < ops@.len(),
        r is None ==> doc_target(ops@, a, ops@.len() as int) == -1,
{
    let mut n = ops.len();
    while n > 0
        invariant
            n <= ops@.len(),
            doc_target(ops@, a, ops@.len() as int) == doc_target(ops@, a, n as int),
        decreases n,
    {
        if is_named(&ops[n - 1]) && ops[n - 1].address() == a {
            return Some(n - 1);
        }
        n -= 1;
    }
    None
}

/// A text as a field: unset where it is blank.
fn field_of(s: &String) -> (r: Option<String>)
    ensures
        opt_view(r) == field(s@),
{
    let c = chars_of(s.as_str());
    if trim_chars(&c).len() > 0 {
        Some(string_of(&c))
    } else {
        None
    }
}

/// Writes the texts of a block into the choices of a menu.
fn write_choices(cs: &mut Vec<Choice>, texts: &Vec<(String, String)>)
    ensures
        choices_written(
            old(cs)@,
            final(cs)@,
            Seq::new(texts@.len(), |i: int| (texts@[i].0@, texts@[i].1@)),
        ),
{
    let ghost tv = Seq::new(texts@.len(), |i: int| (texts@[i].0@, texts@[i].1@));
    let ghost orig = cs@;
    let mut j: usize = 0;
    while j < cs.len() && j < texts.len()
        invariant
            cs@.len() == orig.len(),
            tv == Seq::new(texts@.len(), |i: int| (texts@[i].0@, texts@[i].1@)),
            orig == old(cs)@,
            j <= cs@.len(),
            j <= texts@.len(),
            forall|k: int|
                0 <= k < j ==> (Choice { translation: None, notes: None, ..#[trigger] cs@[k] }) == (
                Choice { translation: None, notes: None, ..orig[k] }) && opt_view(cs@[k].translation)
                    == field(tv[k].0) && opt_view(cs@[k].notes) == field(tv[k].1),
            forall|k: int| j <= k < cs@.len() ==> #[trigger] cs@[k] == orig[k],
        decreases cs@.len() - j,
    {
        let mut c = cs.remove(j);
        c.translation = field_of(&texts[j].0);
        c.notes = field_of(&texts[j].1);
        cs.insert(j, c);
        j += 1;
    }
    assert forall|k: int| 0 <= k < orig.len() implies {
        &&& (Choice { translation: None, notes: None, ..#[trigger] cs@[k] }) == (Choice {
            translation: None,
            notes: None,
            ..orig[k]
        })
        &&& k < tv.len() ==> opt_view(cs@[k].translation) == field(tv[k].0) && opt_view(
            cs@[k].notes,
        ) == field(tv[k].1)
        &&& k >= tv.len() ==> cs@[k] == orig[k]
    } by {
        if k >= j {
            assert(cs@[k] == orig[k]);
        }
    }
}

/// Writes the texts of a block into the opcode it names.
fn write_texts(op: &mut Opcode, line: &DocLine)
    ensures
        texts_written(*old(op), *final(op), line.view_entry()),
{
    match op {
        Opcode::Text47(o) => {
            o.translation = field_of(&line.translation);
            o.notes = field_of(&line.notes);
        },
        Opcode::Text2(o) => {
            o.translation = field_of(&line.translation);
            o.notes = field_of(&line.notes);
        },
        Opcode::Text(o) => {
            o.translation = field_of(&line.translation);
            o.notes = field_of(&line.notes);
        },
        Opcode::Choice(o) => {
            write_choices(&mut o.choices, &line.choices);
        },
        _ => {},
    }
}

/// Writes one block of the document into the opcodes, as `entry_applied` says.
fn apply_entry(ops: &mut Vec<Opcode>, line: &DocLine)
    ensures
        entry_applied(old(ops)@, final(ops)@, line.view_entry()),
{
    let ghost orig = ops@;
    let main = find_target(ops, line.address);
    let sp = find_target(ops, line.speaker_address);
    if line.speaker_address != 0 {
        if let Some(k) = sp {
            let is_main = match main {
                Some(i) => i == k,
                None => false,
            };
            if !is_main {
                let mut op = ops.remove(k);
                if let Opcode::Text47(o) = &mut op {
                    o.translation = Some(string_of(&chars_of(line.speaker_translation.as_str())));
                }
                ops.insert(k, op);
                assert(forall|x: int| 0 <= x < ops@.len() && x != k ==> ops@[x] == orig[x]);
            }
        }
    }
    let ghost mid = ops@;
    if let Some(i) = main {
        let mut op = ops.remove(i);
        write_texts(&mut op, line);
        ops.insert(i, op);
        assert(forall|x: int| 0 <= x < ops@.len() && x != i ==> ops@[x] == mid[x]);
    }
}

/// Reads a translator's document and writes its translations and notes into the script:
/// each block, in order, as `entry_applied` says. Where a line of the document cannot be
/// read the script is left as it is and `false` comes back.
#[verifier::spinoff_prover]
pub fn tl_reverse_transform_script(script: &mut Script, tl_doc: &str) -> (r: bool)
    ensures
        final(script).header == old(script).header,
        final(script).footer == old(script).footer,
        ({
            let lines = split_lines(tl_doc@);
            match doc_run(lines, lines.len() as int) {
                None => !r && final(script).opcodes@ == old(script).opcodes@,
                Some((es, _, _)) => r && exists|ss: Seq<Seq<Opcode>>|
                    ss.len() == es.len() + 1 && ss[0] == old(script).opcodes@ && ss.last()
                        == final(script).opcodes@ && forall|k: int|
                        0 <= k < es.len() ==> entry_applied(ss[k], #[trigger] ss[k + 1], es[k]),
            }
        }),
{
    let lines = match read_tl_doc(tl_doc) {
        Some(l) => l,
        None => {
            return false;
        },
    };
    let ghost es = entries_of(lines@);
    let ghost mut ss: Seq<Seq<Opcode>> = seq![script.opcodes@];
    let mut k: usize = 0;
    while k < lines.len()
        invariant
            es == entries_of(lines@),
            k <= lines@.len(),
            script.header == old(script).header,
            script.footer == old(script).footer,
            ss.len() == k + 1,
            ss[0] == old(script).opcodes@,
            ss.last() == script.opcodes@,
            forall|x: int| 0 <= x < k ==> entry_applied(ss[x], #[trigger] ss[x + 1], es[x]),
        decreases lines@.len() - k,
    {
        apply_entry(&mut script.opcodes, &lines[k]);
        proof {
            ss = ss.push(script.opcodes@);
        }
        k += 1;
    }
    assert(ss.len() == es.len() + 1);
    true
}

} // verus!
