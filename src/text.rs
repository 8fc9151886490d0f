//! Wrapping of translated dialogue lines in the editable script form: a line is broken
//! with the game's `%N` marker where it would run past 60 bytes.
use vstd::prelude::*;

verus! {

/// The number of bytes UTF-8 takes for `c`.
pub open spec fn char_width(c: char) -> int {
    if (c as u32) < 0x80 {
        1
    } else if (c as u32) < 0x800 {
        2
    } else if (c as u32) < 0x10000 {
        3
    } else {
        4
    }
}

/// The number of bytes UTF-8 takes for `s`.
pub open spec fn utf8_len(s: Seq<char>) -> int
    decreases s.len(),
{
    if s.len() == 0 {
        0
    } else {
        utf8_len(s.drop_last()) + char_width(s.last())
    }
}

/// Whether `c` is white space in Unicode.
pub open spec fn is_space(c: char) -> bool {
    let v = c as u32;
    (0x09 <= v <= 0x0D) || v == 0x20 || v == 0x85 || v == 0xA0 || v == 0x1680 || (0x2000 <= v
        <= 0x200A) || v == 0x2028 || v == 0x2029 || v == 0x202F || v == 0x205F || v == 0x3000
}

/// What goes between the text so far and the next word: `%N` where the word would carry
/// the byte count past a multiple of 60, else a space.
pub open spec fn separator(out: Seq<char>, word: Seq<char>) -> Seq<char> {
    if (utf8_len(out) + utf8_len(word)) % 60 < utf8_len(out) % 60 {
        seq!['%', 'N']
    } else {
        seq![' ']
    }
}

/// The text so far with `word` added: the first word alone, a later one after its
/// separator.
pub open spec fn join_word(out: Seq<char>, word: Seq<char>, first: bool) -> Seq<char> {
    if first {
        word
    } else {
        out + separator(out, word) + word
    }
}

/// Wrapping `s` from position `i`, with the text so far, the word being read, and whether
/// it is the first word. Words are what single spaces separate.
pub open spec fn wrap_from(s: Seq<char>, i: int, out: Seq<char>, word: Seq<char>, first: bool) -> Seq<char>
    decreases s.len() - i,
{
    if i < 0 || i >= s.len() {
        join_word(out, word, first)
    } else if s[i] == ' ' {
        wrap_from(s, i + 1, join_word(out, word, first), seq![], false)
    } else {
        wrap_from(s, i + 1, out, word.push(s[i]), first)
    }
}

/// The number of white-space characters that `s` starts with.
pub open spec fn lead_spaces(s: Seq<char>) -> int
    decreases s.len(),
{
    if s.len() > 0 && is_space(s[0]) {
        1 + lead_spaces(s.drop_first())
    } else {
        0
    }
}

/// The number of white-space characters that `s` ends with.
pub open spec fn trail_spaces(s: Seq<char>) -> int
    decreases s.len(),
{
    if s.len() > 0 && is_space(s.last()) {
        1 + trail_spaces(s.drop_last())
    } else {
        0
    }
}

/// `s` without white space at either end.
pub open spec fn trim(s: Seq<char>) -> Seq<char> {
    let a = lead_spaces(s);
    if a == s.len() {
        seq![]
    } else {
        s.subrange(a, s.len() - trail_spaces(s))
    }
}

/// A line of text wrapped at 60 bytes: each word that would carry the byte count past a
/// multiple of 60 is put after `%N` instead of a space; white space at the ends goes.
pub open spec fn wrapped(s: Seq<char>) -> Seq<char> {
    trim(wrap_from(s, 0, seq![], seq![], true))
}

/// Relies on `String::from_iter`: the string of the characters in order.
#[verifier::external_body]
pub(crate) fn string_of(v: &Vec<char>) -> (r: String)
    ensures
        r@ == v@,
{
    String::from_iter(v.iter())
}

/// The characters of `s`.
pub fn chars_of(s: &str) -> (r: Vec<char>)
    ensures
        r@ == s@,
{
    let n = s.unicode_len();
    let mut r: Vec<char> = Vec::new();
    let mut i: usize = 0;
    while i < n
        invariant
            n == s@.len(),
            i <= n,
            r@ == s@.subrange(0, i as int),
        decreases n - i,
    {
        r.push(s.get_char(i));
        i += 1;
        assert(r@ =~= s@.subrange(0, i as int));
    }
    r
}

/// The number of bytes UTF-8 takes for `c`.
fn width(c: char) -> (r: usize)
    ensures
        r == char_width(c),
{
    if (c as u32) < 0x80 {
        1
    } else if (c as u32) < 0x800 {
        2
    } else if (c as u32) < 0x10000 {
        3
    } else {
        4
    }
}

/// Whether `c` is white space in Unicode.
pub fn space_char(c: char) -> (r: bool)
    ensures
        r == is_space(c),
{
    let v = c as u32;
    (0x09 <= v && v <= 0x0D) || v == 0x20 || v == 0x85 || v == 0xA0 || v == 0x1680 || (0x2000 <= v
        && v <= 0x200A) || v == 0x2028 || v == 0x2029 || v == 0x202F || v == 0x205F || v == 0x3000
}

proof fn lemma_utf8_push(s: Seq<char>, c: char)
    ensures
        utf8_len(s.push(c)) == utf8_len(s) + char_width(c),
{
    assert(s.push(c).drop_last() =~= s);
}

proof fn lemma_utf8_concat(a: Seq<char>, b: Seq<char>)
    ensures
        utf8_len(a + b) == utf8_len(a) + utf8_len(b),
    decreases b.len(),
{
    if b.len() == 0 {
        assert(a + b =~= a);
    } else {
        lemma_utf8_concat(a, b.drop_last());
        assert((a + b).drop_last() =~= a + b.drop_last());
    }
}

/// Appends the word to the text so far, as `join_word` says; `out_mod` and `word_mod`
/// are their byte counts modulo 60, and the new count modulo 60 comes back.
fn join(out: &mut Vec<char>, word: &Vec<char>, first: bool, out_mod: usize, word_mod: usize) -> (r: usize)
    requires
        out_mod == utf8_len(old(out)@) % 60,
        word_mod == utf8_len(word@) % 60,
    ensures
        final(out)@ == join_word(old(out)@, word@, first),
        r == utf8_len(final(out)@) % 60,
{
    let ghost o = old(out)@;
    if first {
        out.clear();
        let mut i: usize = 0;
        while i < word.len()
            invariant
                i <= word@.len(),
                out@ == word@.subrange(0, i as int),
            decreases word@.len() - i,
        {
            out.push(word[i]);
            i += 1;
            assert(out@ =~= word@.subrange(0, i as int));
        }
        assert(word@.subrange(0, word@.len() as int) =~= word@);
        return word_mod;
    }
    proof {
        vstd::arithmetic::div_mod::lemma_add_mod_noop(utf8_len(o), utf8_len(word@), 60);
        lemma_utf8_concat(o, word@);
    }
    let sep_len: usize;
    if (out_mod + word_mod) % 60 < out_mod {
        out.push('%');
        out.push('N');
        sep_len = 2;
    } else {
        out.push(' ');
        sep_len = 1;
    }
    let ghost mid = out@;
    assert(mid =~= o + separator(o, word@));
    proof {
        lemma_utf8_concat(o, separator(o, word@));
        assert(seq!['%', 'N'].drop_last() =~= seq!['%']);
        assert(seq!['%'].drop_last() =~= Seq::<char>::empty());
        assert(seq![' '].drop_last() =~= Seq::<char>::empty());
        reveal_with_fuel(utf8_len, 3);
        assert(utf8_len(seq!['%', 'N']) == 2);
        assert(utf8_len(seq![' ']) == 1);
    }
    let mut i: usize = 0;
    while i < word.len()
        invariant
            i <= word@.len(),
            out@ == mid + word@.subrange(0, i as int),
        decreases word@.len() - i,
    {
        out.push(word[i]);
        i += 1;
        assert(out@ =~= mid + word@.subrange(0, i as int));
    }
    assert(word@.subrange(0, word@.len() as int) =~= word@);
    proof {
        lemma_utf8_concat(mid, word@);
        vstd::arithmetic::div_mod::lemma_add_mod_noop(utf8_len(mid), utf8_len(word@), 60);
        vstd::arithmetic::div_mod::lemma_add_mod_noop(utf8_len(o), sep_len as int, 60);
    }
    ((out_mod + sep_len) % 60 + word_mod) % 60
}

/// `s` without white space at either end.
pub(crate) fn trim_chars(s: &Vec<char>) -> (r: Vec<char>)
    ensures
        r@ == trim(s@),
{
    let n = s.len();
    let mut a: usize = 0;
    assert(s@.subrange(0, n as int) =~= s@);
    while a < n && space_char(s[a])
        invariant
            n == s@.len(),
            a <= n,
            lead_spaces(s@) == a + lead_spaces(s@.subrange(a as int, n as int)),
        decreases n - a,
    {
        assert(s@.subrange(a as int, n as int).drop_first() =~= s@.subrange(a + 1, n as int));
        a += 1;
    }
    if a == n {
        assert(s@.subrange(a as int, n as int).len() == 0);
        return Vec::new();
    }
    assert(lead_spaces(s@) == a);
    let mut b: usize = 0;
    while b < n - a && space_char(s[n - 1 - b])
        invariant
            n == s@.len(),
            a < n,
            !is_space(s@[a as int]),
            b <= n - a,
            forall|k: int| n - b <= k < n ==> is_space(#[trigger] s@[k]),
            trail_spaces(s@) == b + trail_spaces(s@.subrange(0, n - b)),
        decreases n - a - b,
    {
        assert(s@.subrange(0, n - b).drop_last() =~= s@.subrange(0, n - b - 1));
        b += 1;
    }
    assert(b < n - a);
    assert(trail_spaces(s@) == b);
    let mut r: Vec<char> = Vec::new();
    let mut i: usize = a;
    while i < n - b
        invariant
            n == s@.len(),
            a <= i <= n - b,
            r@ == s@.subrange(a as int, i as int),
        decreases n - b - i,
    {
        r.push(s[i]);
        i += 1;
        assert(r@ =~= s@.subrange(a as int, i as int));
    }
    r
}

/// Wraps a line of text at 60 bytes: a word that would carry the byte count past a
/// multiple of 60 goes after `%N` instead of a space; white space at the ends goes.
#[verifier::spinoff_prover]
pub fn fix_string(input: &str) -> (r: String)
    ensures
        r@ == wrapped(input@),
{
    let s = chars_of(input);
    let n = s.len();
    let mut out: Vec<char> = Vec::new();
    let mut word: Vec<char> = Vec::new();
    let mut first = true;
    let mut out_mod: usize = 0;
    let mut word_mod: usize = 0;
    let mut i: usize = 0;
    while i < n
        invariant
            n == s@.len(),
            i <= n,
            wrap_from(s@, i as int, out@, word@, first) == wrap_from(s@, 0, seq![], seq![], true),
            out_mod == utf8_len(out@) % 60,
            word_mod == utf8_len(word@) % 60,
        decreases n - i,
    {
        let c = s[i];
        if c == ' ' {
            out_mod = join(&mut out, &word, first, out_mod, word_mod);
            word.clear();
            word_mod = 0;
            first = false;
            assert(word@ =~= Seq::<char>::empty());
        } else {
            proof {
                lemma_utf8_push(word@, c);
                vstd::arithmetic::div_mod::lemma_add_mod_noop(utf8_len(word@), char_width(c), 60);
            }
            word.push(c);
            word_mod = (word_mod + width(c) % 60) % 60;
        }
        i += 1;
    }
    join(&mut out, &word, first, out_mod, word_mod);
    let t = trim_chars(&out);
    string_of(&t)
}

/// The first position from `i` on where `p` occurs in `s`.
pub open spec fn find_from(s: Seq<char>, p: Seq<char>, i: int) -> Option<int>
    decreases s.len() + 1 - i,
{
    if i < 0 || i + p.len() > s.len() {
        None
    } else if s.subrange(i, i + p.len()) == p {
        Some(i)
    } else {
        find_from(s, p, i + 1)
    }
}

/// Whether `s` ends with `p`.
pub open spec fn ends_with(s: Seq<char>, p: Seq<char>) -> bool {
    p.len() <= s.len() && s.subrange(s.len() - p.len(), s.len() as int) == p
}

/// Whether `c` is trimmed from the text of a line: a space or a double quote.
pub open spec fn is_quote_or_space(c: char) -> bool {
    c == ' ' || c == '\u{22}'
}

/// The number of spaces and double quotes that `s` starts with.
pub open spec fn lead_quotes(s: Seq<char>) -> int
    decreases s.len(),
{
    if s.len() > 0 && is_quote_or_space(s[0]) {
        1 + lead_quotes(s.drop_first())
    } else {
        0
    }
}

/// The number of spaces and double quotes that `s` ends with.
pub open spec fn trail_quotes(s: Seq<char>) -> int
    decreases s.len(),
{
    if s.len() > 0 && is_quote_or_space(s.last()) {
        1 + trail_quotes(s.drop_last())
    } else {
        0
    }
}

/// `s` without spaces and double quotes at either end.
pub open spec fn unquote(s: Seq<char>) -> Seq<char> {
    let a = lead_quotes(s);
    if a == s.len() {
        seq![]
    } else {
        s.subrange(a, s.len() - trail_quotes(s))
    }
}

/// `s` from position `i` on, with every occurrence of the non-empty `p` replaced by `w`,
/// left to right without overlap.
pub open spec fn replace_from(s: Seq<char>, p: Seq<char>, w: Seq<char>, i: int) -> Seq<char>
    decreases s.len() - i, 
{
    if i < 0 || i >= s.len() {
        seq![]
    } else if p.len() > 0 && i + p.len() <= s.len() && s.subrange(i, i + p.len()) == p {
        w + replace_from(s, p, w, i + p.len())
    } else {
        seq![s[i]] + replace_from(s, p, w, i + 1)
    }
}

/// `s` with `w` put before each character and at the end, which is what replacing the
/// empty string does.
pub open spec fn replace_empty(s: Seq<char>, w: Seq<char>, i: int) -> Seq<char>
    decreases s.len() - i,
{
    if i < 0 || i >= s.len() {
        w
    } else {
        w + seq![s[i]] + replace_empty(s, w, i + 1)
    }
}

/// `s` with every occurrence of `p` replaced by `w`.
pub open spec fn replace_all(s: Seq<char>, p: Seq<char>, w: Seq<char>) -> Seq<char> {
    if p.len() == 0 {
        replace_empty(s, w, 0)
    } else {
        replace_from(s, p, w, 0)
    }
}

/// Where the text of a line starts and ends: after the first `unicode: `, up to the first
/// ` #` or the end.
pub open spec fn text_span(line: Seq<char>) -> (int, int) {
    let u = find_from(line, "unicode: "@, 0)->Some_0 + 9;
    let c = match find_from(line, " #"@, 0) {
        Some(c) => c,
        None => line.len() as int,
    };
    (u, c)
}

/// Whether a line is one that `fix_line` leaves alone: it has no `unicode: `, ends with
/// `nofix`, or already holds `%N`.
pub open spec fn line_kept(line: Seq<char>) -> bool {
    find_from(line, "unicode: "@, 0) is None || ends_with(line, "nofix"@) || find_from(
        line,
        "%N"@,
        0,
    ) is Some
}

/// A line of the editable script form with the text after its `unicode: ` wrapped at 60
/// bytes, a comment after ` #` left as it is, and spaces and double quotes round the text
/// dropped.
pub open spec fn fixed_line(line: Seq<char>) -> Seq<char> {
    if line_kept(line) {
        line
    } else {
        let (u, c) = text_span(line);
        let text = line.subrange(u, c);
        replace_all(line, text, wrapped(unquote(text)))
    }
}

/// The first position from `i` on where `p` occurs in `s`.
fn find_chars(s: &Vec<char>, p: &Vec<char>) -> (r: Option<usize>)
    ensures
        r is Some <==> find_from(s@, p@, 0) is Some,
        r is Some ==> r->Some_0 as int == find_from(s@, p@, 0)->Some_0,
        r is Some ==> r->Some_0 + p@.len() <= s@.len(),
{
    let n = s.len();
    let m = p.len();
    if m > n {
        return None;
    }
    let mut i: usize = 0;
    while i <= n - m
        invariant
            n == s@.len(),
            m == p@.len(),
            m <= n,
            i <= n - m,
            find_from(s@, p@, 0) == find_from(s@, p@, i as int),
        decreases n - m - i,
    {
        if matches_at(s, p, i) {
            return Some(i);
        }
        if i == n - m {
            assert(find_from(s@, p@, i + 1) is None);
            return None;
        }
        i += 1;
    }
    None
}

/// Whether `p` occurs in `s` at `i`.
pub(crate) fn matches_at(s: &Vec<char>, p: &Vec<char>, i: usize) -> (r: bool)
    requires
        i + p@.len() <= s@.len(),
    ensures
        r == (s@.subrange(i as int, i + p@.len()) == p@),
{
    let _sl = s.len();
    let mut j: usize = 0;
    while j < p.len()
        invariant
            i + p@.len() <= s@.len(),
            s@.len() <= usize::MAX,
            j <= p@.len(),
            forall|k: int| 0 <= k < j ==> s@[i + k] == p@[k],
        decreases p@.len() - j,
    {
        if s[i + j] != p[j] {
            assert(s@.subrange(i as int, i + p@.len())[j as int] != p@[j as int]);
            return false;
        }
        j += 1;
    }
    assert(s@.subrange(i as int, i + p@.len()) =~= p@);
    true
}

/// `s` without spaces and double quotes at either end.
fn unquote_chars(s: &Vec<char>) -> (r: Vec<char>)
    ensures
        r@ == unquote(s@),
{
    let n = s.len();
    let mut a: usize = 0;
    assert(s@.subrange(0, n as int) =~= s@);
    while a < n && (s[a] == ' ' || s[a] == '\u{22}')
        invariant
            n == s@.len(),
            a <= n,
            lead_quotes(s@) == a + lead_quotes(s@.subrange(a as int, n as int)),
        decreases n - a,
    {
        assert(s@.subrange(a as int, n as int).drop_first() =~= s@.subrange(a + 1, n as int));
        a += 1;
    }
    if a == n {
        assert(s@.subrange(a as int, n as int).len() == 0);
        return Vec::new();
    }
    assert(lead_quotes(s@) == a);
    let mut b: usize = 0;
    while b < n - a && (s[n - 1 - b] == ' ' || s[n - 1 - b] == '\u{22}')
        invariant
            n == s@.len(),
            a < n,
            !is_quote_or_space(s@[a as int]),
            b <= n - a,
            forall|k: int| n - b <= k < n ==> is_quote_or_space(#[trigger] s@[k]),
            trail_quotes(s@) == b + trail_quotes(s@.subrange(0, n - b)),
        decreases n - a - b,
    {
        assert(s@.subrange(0, n - b).drop_last() =~= s@.subrange(0, n - b - 1));
        b += 1;
    }
    assert(b < n - a);
    assert(trail_quotes(s@) == b);
    let mut r: Vec<char> = Vec::new();
    let mut i: usize = a;
    while i < n - b
        invariant
            n == s@.len(),
            a <= i <= n - b,
            r@ == s@.subrange(a as int, i as int),
        decreases n - b - i,
    {
        r.push(s[i]);
        i += 1;
        assert(r@ =~= s@.subrange(a as int, i as int));
    }
    r
}

/// Appends every character of `w`.
pub(crate) fn push_chars(out: &mut Vec<char>, w: &Vec<char>)
    ensures
        final(out)@ == old(out)@ + w@,
{
    let mut i: usize = 0;
    while i < w.len()
        invariant
            i <= w@.len(),
            out@ == old(out)@ + w@.subrange(0, i as int),
        decreases w@.len() - i,
    {
        out.push(w[i]);
        i += 1;
        assert(out@ =~= old(out)@ + w@.subrange(0, i as int));
    }
    assert(w@.subrange(0, w@.len() as int) =~= w@);
}

/// `s` with every occurrence of `p` replaced by `w`.
pub(crate) fn replace_chars(s: &Vec<char>, p: &Vec<char>, w: &Vec<char>) -> (r: Vec<char>)
    ensures
        r@ == replace_all(s@, p@, w@),
{
    let n = s.len();
    let m = p.len();
    let mut out: Vec<char> = Vec::new();
    let mut i: usize = 0;
    if m == 0 {
        while i < n
            invariant
                n == s@.len(),
                i <= n,
                out@ + replace_empty(s@, w@, i as int) == replace_empty(s@, w@, 0),
            decreases n - i,
        {
            let ghost before = out@;
            push_chars(&mut out, w);
            out.push(s[i]);
            assert(out@ + replace_empty(s@, w@, i + 1) =~= before + replace_empty(s@, w@, i as int));
            i += 1;
        }
        let ghost before = out@;
        push_chars(&mut out, w);
        assert(out@ =~= before + replace_empty(s@, w@, i as int));
        return out;
    }
    while i < n
        invariant
            n == s@.len(),
            m == p@.len(),
            m > 0,
            i <= n,
            out@ + replace_from(s@, p@, w@, i as int) == replace_from(s@, p@, w@, 0),
        decreases n - i,
    {
        let ghost before = out@;
        if m <= n - i && matches_at(s, p, i) {
            push_chars(&mut out, w);
            assert(out@ + replace_from(s@, p@, w@, i + m) =~= before + replace_from(
                s@,
                p@,
                w@,
                i as int,
            ));
            i += m;
        } else {
            out.push(s[i]);
            assert(out@ + replace_from(s@, p@, w@, i + 1) =~= before + replace_from(
                s@,
                p@,
                w@,
                i as int,
            ));
            i += 1;
        }
    }
    assert(out@ + Seq::<char>::empty() =~= out@);
    out
}

/// Whether `fix_line` can take the text of a line: where it wraps one, the first ` #`
/// does not come before the end of the first `unicode: `.
pub open spec fn fix_line_defined(line: Seq<char>) -> bool {
    line_kept(line) || text_span(line).0 <= text_span(line).1
}

/// Wraps the text of a line of the editable script form at 60 bytes, as `fixed_line` says.
#[verifier::spinoff_prover]
pub fn fix_line(line: &str) -> (r: String)
    requires
        fix_line_defined(line@),
    ensures
        r@ == fixed_line(line@),
{
    proof {
        reveal_strlit("unicode: ");
    }
    let s = chars_of(line);
    let key = chars_of("unicode: ");
    let hash = chars_of(" #");
    let nofix = chars_of("nofix");
    let mark = chars_of("%N");
    let unicode_at = match find_chars(&s, &key) {
        Some(u) => u,
        None => {
            return string_of(&s);
        },
    };
    let n = s.len();
    let comment_at = match find_chars(&s, &hash) {
        Some(c) => c,
        None => n,
    };
    let ends = nofix.len() <= n && matches_at(&s, &nofix, n - nofix.len());
    if ends || find_chars(&s, &mark).is_some() {
        return string_of(&s);
    }
    let mut text: Vec<char> = Vec::new();
    let mut i: usize = unicode_at + 9;
    while i < comment_at
        invariant
            comment_at <= n,
            n == s@.len(),
            unicode_at + 9 <= i <= comment_at,
            text@ == s@.subrange(unicode_at + 9, i as int),
        decreases comment_at - i,
    {
        text.push(s[i]);
        i += 1;
        assert(text@ =~= s@.subrange(unicode_at + 9, i as int));
    }
    let inner = unquote_chars(&text);
    let fixed = chars_of(fix_string(string_of(&inner).as_str()).as_str());
    let r = replace_chars(&s, &text, &fixed);
    string_of(&r)
}

} // verus!
