//! The scenario archive: a directory of 16-byte records, one per script, then the
//! scripts one after the other; and the LZ container around it.
use vstd::prelude::*;
use crate::bytes::{bounds_error, in_bounds, le32, push_all, push_u32, read_u32, u16_at, u32_at};
use crate::error::YetiError;
use crate::quirks::Quirks;
use crate::script::{read_result, Script};
use crate::sjis::{italic_entries, ItalicMap};
use vstd::slice::slice_subrange;

verus! {

/// A directory entry: the file name a script is stored under, and where its bytes are.
#[derive(Clone, Debug, PartialEq, Eq, PartialOrd, Ord)]
pub struct DirEntry {
    pub name: String,
    pub offset: usize,
    pub size: usize,
}

/// The digit character for `d`.
pub open spec fn digit_char(d: int) -> char {
    if d == 0 {
        '0'
    } else if d == 1 {
        '1'
    } else if d == 2 {
        '2'
    } else if d == 3 {
        '3'
    } else if d == 4 {
        '4'
    } else if d == 5 {
        '5'
    } else if d == 6 {
        '6'
    } else if d == 7 {
        '7'
    } else if d == 8 {
        '8'
    } else {
        '9'
    }
}

/// The decimal digits of `n`, padded with zeros to at least `width` digits.
pub open spec fn decimal(n: nat, width: nat) -> Seq<char>
    decreases width, n,
{
    if n < 10 && width <= 1 {
        seq![digit_char(n as int)]
    } else {
        decimal(n / 10, if width > 0 { (width - 1) as nat } else { 0 }).push(digit_char((n % 10) as int))
    }
}

/// The name the `id`-th script is stored under: its index in four digits, then `.yaml`.
pub open spec fn entry_name_of(id: nat) -> Seq<char> {
    decimal(id, 4) + ".yaml"@
}

fn digit(d: usize) -> (r: char)
    requires
        d < 10,
    ensures
        r == digit_char(d as int),
{
    if d == 0 {
        '0'
    } else if d == 1 {
        '1'
    } else if d == 2 {
        '2'
    } else if d == 3 {
        '3'
    } else if d == 4 {
        '4'
    } else if d == 5 {
        '5'
    } else if d == 6 {
        '6'
    } else if d == 7 {
        '7'
    } else if d == 8 {
        '8'
    } else {
        '9'
    }
}

fn push_decimal(out: &mut Vec<char>, n: usize, width: usize)
    ensures
        final(out)@ == old(out)@ + decimal(n as nat, width as nat),
    decreases width, n,
{
    if n < 10 && width <= 1 {
        out.push(digit(n));
        assert(final(out)@ =~= old(out)@ + decimal(n as nat, width as nat));
    } else {
        let w = if width > 0 {
            width - 1
        } else {
            0
        };
        push_decimal(out, n / 10, w);
        out.push(digit(n % 10));
        assert(final(out)@ =~= old(out)@ + decimal(n as nat, width as nat));
    }
}

/// The name the `id`-th script is stored under, such as `0045.yaml`.
pub fn entry_name(id: usize) -> (r: String)
    ensures
        r@ == entry_name_of(id as nat),
{
    let mut v: Vec<char> = Vec::new();
    push_decimal(&mut v, id, 4);
    let ext = crate::text::chars_of(".yaml");
    let mut i: usize = 0;
    let ghost base = v@;
    while i < ext.len()
        invariant
            i <= ext@.len(),
            v@ == base + ext@.subrange(0, i as int),
        decreases ext@.len() - i,
    {
        v.push(ext[i]);
        i += 1;
        assert(v@ =~= base + ext@.subrange(0, i as int));
    }
    assert(ext@.subrange(0, ext@.len() as int) =~= ext@);
    crate::text::string_of(&v)
}

/// The number of records the directory holds: its first offset, which is where the
/// scripts start, over 16, rounded up.
pub open spec fn record_count(input: Seq<u8>) -> int {
    (u32_at(input, 0) as int + 15) / 16
}

/// Reads the directory at the start of an unpacked archive: records of 16 bytes, an
/// offset and a size each, up to the first offset.
pub fn read_directory(input: &[u8]) -> (r: Result<Vec<DirEntry>, YetiError>)
    ensures
        r is Ok <==> in_bounds(0, 4, input@.len() as int) && (record_count(input@) == 0 || 16 * (
        record_count(input@) - 1) + 8 <= input@.len()),
        r is Err ==> r->Err_0 is ParseBounds,
        r is Ok ==> {
            let es = r->Ok_0@;
            &&& es.len() == record_count(input@)
            &&& forall|k: int|
                0 <= k < es.len() ==> (#[trigger] es[k]).offset == u32_at(input@, 16 * k)
                    && es[k].size == u32_at(input@, 16 * k + 4) && es[k].name@ == entry_name_of(
                    k as nat,
                )
        },
{
    if input.len() < 4 {
        return Err(YetiError::ParseBounds { address: 0, len: 4 });
    }
    let max = read_u32(input, 0) as u64;
    let ghost count = record_count(input@);
    let mut entries: Vec<DirEntry> = Vec::new();
    let mut offset: u64 = 0;
    let mut id: usize = 0;
    while offset < max
        invariant
            max == u32_at(input@, 0),
            offset <= max + 15,
            count == record_count(input@),
            offset == 16 * id,
            id <= count,
            id < count <==> offset < max,
            entries@.len() == id,
            forall|k: int|
                0 <= k < id ==> (#[trigger] entries@[k]).offset == u32_at(input@, 16 * k)
                    && entries@[k].size == u32_at(input@, 16 * k + 4) && entries@[k].name@
                    == entry_name_of(k as nat),
            id == 0 || 16 * (id - 1) + 8 <= input@.len(),
        decreases max + 16 - offset,
    {
        let at = offset as usize;
        if at > input.len() || 8 > input.len() - at {
            return Err(YetiError::ParseBounds { address: at, len: 8 });
        }
        entries.push(
            DirEntry {
                name: entry_name(id),
                offset: read_u32(input, at) as usize,
                size: read_u32(input, at + 4) as usize,
            },
        );
        offset = offset + 16;
        id = id + 1;
    }
    Ok(entries)
}

/// Reads each script that the directory of an unpacked archive names, as `Script::new`
/// reads it. A script whose bytes lie outside the archive gets a bounds error of its own.
pub fn parse_scenario(input: &[u8], quirks: Quirks, italics: &ItalicMap) -> (r: Result<
    Vec<(DirEntry, Result<(Script, Option<YetiError>), YetiError>)>,
    YetiError,
>)
    ensures
        r is Ok <==> in_bounds(0, 4, input@.len() as int) && (record_count(input@) == 0 || 16 * (
        record_count(input@) - 1) + 8 <= input@.len()),
        r is Ok ==> {
            let es = r->Ok_0@;
            &&& es.len() == record_count(input@)
            &&& forall|k: int|
                0 <= k < es.len() ==> (#[trigger] es[k]).0.offset == u32_at(input@, 16 * k)
                    && es[k].0.size == u32_at(input@, 16 * k + 4) && (!in_bounds(
                    es[k].0.offset as int,
                    es[k].0.size as int,
                    input@.len() as int,
                ) ==> es[k].1 == Err::<(Script, Option<YetiError>), YetiError>(
                    bounds_error(es[k].0.offset, es[k].0.size),
                )) && (in_bounds(es[k].0.offset as int, es[k].0.size as int, input@.len() as int)
                    ==> read_result(
                    input@.subrange(es[k].0.offset as int, es[k].0.offset + es[k].0.size),
                    quirks,
                    italic_entries(*italics),
                    es[k].1,
                ))
        },
{
    let dir = read_directory(input)?;
    let mut out: Vec<(DirEntry, Result<(Script, Option<YetiError>), YetiError>)> = Vec::new();
    let mut k: usize = 0;
    while k < dir.len()
        invariant
            dir@.len() == record_count(input@),
            forall|j: int|
                0 <= j < dir@.len() ==> (#[trigger] dir@[j]).offset == u32_at(input@, 16 * j)
                    && dir@[j].size == u32_at(input@, 16 * j + 4),
            k <= dir@.len(),
            out@.len() == k,
            forall|j: int|
                0 <= j < k ==> (#[trigger] out@[j]).0.offset == dir@[j].offset && out@[j].0.size
                    == dir@[j].size && (!in_bounds(
                    out@[j].0.offset as int,
                    out@[j].0.size as int,
                    input@.len() as int,
                ) ==> out@[j].1 == Err::<(Script, Option<YetiError>), YetiError>(
                    bounds_error(out@[j].0.offset, out@[j].0.size),
                )) && (in_bounds(out@[j].0.offset as int, out@[j].0.size as int, input@.len() as int)
                    ==> read_result(
                    input@.subrange(out@[j].0.offset as int, out@[j].0.offset + out@[j].0.size),
                    quirks,
                    italic_entries(*italics),
                    out@[j].1,
                )),
        decreases dir@.len() - k,
    {
        let e = &dir[k];
        let entry = DirEntry { name: e.name.clone(), offset: e.offset, size: e.size };
        let parsed = if e.offset > input.len() || e.size > input.len() - e.offset {
            Err(YetiError::ParseBounds { address: e.offset, len: e.size })
        } else {
            let bytes = slice_subrange(input, e.offset, e.offset + e.size);
            Script::new(bytes, quirks, italics)
        };
        out.push((entry, parsed));
        k += 1;
    }
    Ok(out)
}

/// The directory record of a script: its offset, its size, then eight zero bytes.
pub open spec fn dir_record(offset: int, size: int) -> Seq<u8> {
    le32(offset as u32) + le32(size as u32) + seq![0u8, 0u8, 0u8, 0u8, 0u8, 0u8, 0u8, 0u8]
}

/// Where the `k`-th script starts: after the directory and the scripts before it.
pub open spec fn script_offset(scripts: Seq<Seq<u8>>, k: int) -> int
    decreases k,
{
    if k <= 0 {
        16 * scripts.len() as int
    } else {
        script_offset(scripts, k - 1) + scripts[k - 1].len() as int
    }
}

/// The records of the first `k` scripts.
pub open spec fn dir_records(scripts: Seq<Seq<u8>>, k: int) -> Seq<u8>
    decreases k,
{
    if k <= 0 {
        seq![]
    } else {
        dir_records(scripts, k - 1) + dir_record(script_offset(scripts, k - 1), scripts[k - 1].len() as int)
    }
}

/// The first `k` scripts one after the other.
pub open spec fn script_bytes(scripts: Seq<Seq<u8>>, k: int) -> Seq<u8>
    decreases k,
{
    if k <= 0 {
        seq![]
    } else {
        script_bytes(scripts, k - 1) + scripts[k - 1]
    }
}

/// The views of a list of scripts.
pub open spec fn views(scripts: Seq<Vec<u8>>) -> Seq<Seq<u8>> {
    Seq::new(scripts.len(), |k: int| scripts[k]@)
}

/// Packs scripts into an archive: a directory of 16-byte records (offset, size, eight
/// zero bytes), the first offset being 16 times the number of scripts and each next one
/// the last plus its size, then the scripts in order. Every offset and size must fit in
/// 32 bits.
#[verifier::spinoff_prover]
pub fn recompile_scripts(scripts: &Vec<Vec<u8>>) -> (r: Result<Vec<u8>, YetiError>)
    ensures
        r is Ok <==> script_offset(views(scripts@), scripts@.len() as int) <= u32::MAX,
        r is Err ==> r == Err::<Vec<u8>, YetiError>(YetiError::TooLarge),
        r is Ok ==> r->Ok_0@ == dir_records(views(scripts@), scripts@.len() as int) + script_bytes(
            views(scripts@),
            scripts@.len() as int,
        ),
{
    let ghost ss = views(scripts@);
    let n = scripts.len();
    if n > (u32::MAX / 16) as usize {
        proof {
            lemma_offset_mono(ss, 0, n as int);
        }
        return Err(YetiError::TooLarge);
    }
    let mut dir: Vec<u8> = Vec::new();
    let mut body: Vec<u8> = Vec::new();
    let mut offset: u32 = (16 * n) as u32;
    let mut k: usize = 0;
    while k < n
        invariant
            n == scripts@.len(),
            ss == views(scripts@),
            k <= n,
            offset == script_offset(ss, k as int),
            dir@ == dir_records(ss, k as int),
            body@ == script_bytes(ss, k as int),
        decreases n - k,
    {
        let size = scripts[k].len();
        if size > (u32::MAX - offset) as usize {
            proof {
                lemma_offset_mono(ss, k + 1, n as int);
            }
            return Err(YetiError::TooLarge);
        }
        push_u32(&mut dir, offset);
        push_u32(&mut dir, size as u32);
        let mut z: usize = 0;
        while z < 8
            invariant
                z <= 8,
                dir@ == dir_records(ss, k as int) + le32(offset) + le32(size as u32) + Seq::new(
                    z as nat,
                    |i: int| 0u8,
                ),
            decreases 8 - z,
        {
            dir.push(0);
            z += 1;
            assert(dir@ =~= dir_records(ss, k as int) + le32(offset) + le32(size as u32) + Seq::new(
                z as nat,
                |i: int| 0u8,
            ));
        }
        assert(dir@ =~= dir_records(ss, k + 1));
        push_all(&mut body, scripts[k].as_slice());
        offset = offset + size as u32;
        k += 1;
    }
    let mut out = dir;
    out.append(&mut body);
    Ok(out)
}

/// Offsets grow with the index.
proof fn lemma_offset_mono(ss: Seq<Seq<u8>>, a: int, b: int)
    requires
        0 <= a <= b,
    ensures
        script_offset(ss, a) <= script_offset(ss, b),
    decreases b - a,
{
    if a < b {
        lemma_offset_mono(ss, a, b - 1);
    }
}

/// The bytes stored literally: each run of up to eight bytes after a flag byte `0xFF`
/// that marks them all as literals.
pub open spec fn literal_blocks(s: Seq<u8>) -> Seq<u8>
    decreases s.len(),
{
    if s.len() == 0 {
        seq![]
    } else if s.len() <= 8 {
        seq![0xFFu8] + s
    } else {
        seq![0xFFu8] + s.subrange(0, 8) + literal_blocks(s.subrange(8, s.len() as int))
    }
}

/// Wraps bytes in the LZ container without compressing them: the length, then every
/// run of eight bytes after a flag byte marking them as literals.
pub fn lz77_compress(input: &[u8]) -> (r: Vec<u8>)
    requires
        input@.len() <= u32::MAX,
    ensures
        r@ == le32(input@.len() as u32) + literal_blocks(input@),
{
    let n = input.len();
    let mut out: Vec<u8> = Vec::new();
    push_u32(&mut out, n as u32);
    let ghost head = out@;
    assert(head =~= le32(n as u32));
    assert(input@.subrange(0, n as int) =~= input@);
    let mut i: usize = 0;
    while i < n
        invariant
            n == input@.len(),
            i <= n,
            head == le32(n as u32),
            out@ + literal_blocks(input@.subrange(i as int, n as int)) == head + literal_blocks(input@),
        decreases n - i,
    {
        let ghost before = out@;
        let end = if n - i <= 8 {
            n
        } else {
            i + 8
        };
        out.push(0xFF);
        push_all(&mut out, slice_subrange(input, i, end));
        let ghost rest = input@.subrange(i as int, n as int);
        if n - i <= 8 {
            assert(rest =~= input@.subrange(i as int, end as int));
        } else {
            assert(rest.subrange(0, 8) =~= input@.subrange(i as int, end as int));
            assert(rest.subrange(8, rest.len() as int) =~= input@.subrange(end as int, n as int));
        }
        i = end;
        assert(out@ + literal_blocks(input@.subrange(i as int, n as int)) =~= before + literal_blocks(rest));
    }
    assert(input@.subrange(n as int, n as int) =~= Seq::<u8>::empty());
    assert(out@ + Seq::<u8>::empty() =~= out@);
    out
}

/// A back-reference: `n` bytes written from `offset` on, each a copy of the byte `back`
/// places before it, or 0 where that lies before the start; writing stops at `size`.
/// Gives the output and where writing then stands.
pub open spec fn lz_copy(out: Seq<u8>, offset: int, back: int, n: int, size: int) -> (Seq<u8>, int)
    decreases n,
{
    if n <= 0 || offset >= size {
        (out, offset)
    } else {
        let v = if offset - back < 0 {
            0u8
        } else {
            out[offset - back]
        };
        lz_copy(out.update(offset, v), offset + 1, back, n - 1, size)
    }
}

/// How far back a back-reference with the two bytes `info` reaches from `offset`.
pub open spec fn lz_back(offset: int, info: u16) -> int {
    let buf = (info as int / 4096) * 256 + info as int % 256;
    (offset - 18 - buf) % 4096
}

/// Unpacking from a state: the output (of its final length `size`), where writing
/// stands, where reading stands, the flag byte and how many of its bits are left. A flag
/// byte governs the next eight items: a set bit marks a literal byte, a clear one a
/// two-byte back-reference of `3 + ((info >> 8) & 0xF)` bytes. Unpacking stops when the
/// output is full or the input runs out; a back-reference cut short is `None`.
pub open spec fn lz_run(input: Seq<u8>, out: Seq<u8>, offset: int, ip: int, flags: int, bits: int, size: int) -> Option<Seq<u8>>
    decreases input.len() - ip,
{
    if offset >= size || ip >= input.len() || ip < 0 {
        Some(out)
    } else if bits <= 0 {
        lz_run(input, out, offset, ip + 1, input[ip] as int, 8, size)
    } else if flags % 2 == 1 {
        lz_run(input, out.update(offset, input[ip]), offset + 1, ip + 1, flags / 2, bits - 1, size)
    } else if ip + 2 > input.len() {
        None
    } else {
        let info = u16_at(input, ip);
        let n = 3 + (info as int / 256) % 16;
        let (o2, off2) = lz_copy(out, offset, lz_back(offset, info), n, size);
        lz_run(input, o2, off2, ip + 2, flags / 2, bits - 1, size)
    }
}

/// What unpacking the LZ container `input` gives: the length in its first four bytes,
/// then the items after it.
pub open spec fn lz_unpacked(input: Seq<u8>) -> Option<Seq<u8>> {
    let size = u32_at(input, 0) as int;
    lz_run(input, Seq::new(size as nat, |i: int| 0u8), 0, 4, 0, 0, size)
}

/// Unpacks the LZ container around an archive.
#[verifier::spinoff_prover]
pub fn lz77_decompress(input: &[u8]) -> (r: Result<Vec<u8>, YetiError>)
    ensures
        !in_bounds(0, 4, input@.len() as int) ==> r == Err::<Vec<u8>, YetiError>(bounds_error(0, 4)),
        in_bounds(0, 4, input@.len() as int) ==> match lz_unpacked(input@) {
            Some(o) => r is Ok && r->Ok_0@ == o,
            None => r is Err && r->Err_0 is ParseBounds,
        },
{
    if input.len() < 4 {
        return Err(YetiError::ParseBounds { address: 0, len: 4 });
    }
    let size = read_u32(input, 0) as usize;
    let n = input.len();
    let mut out: Vec<u8> = Vec::new();
    let mut z: usize = 0;
    while z < size
        invariant
            z <= size,
            out@ == Seq::new(z as nat, |i: int| 0u8),
        decreases size - z,
    {
        out.push(0);
        z += 1;
        assert(out@ =~= Seq::new(z as nat, |i: int| 0u8));
    }
    let ghost whole = lz_unpacked(input@);
    let mut offset: usize = 0;
    let mut ip: usize = 4;
    let mut flags: u8 = 0;
    let mut bits: usize = 0;
    while offset < size && ip < n
        invariant
            n == input@.len(),
            4 <= n,
            whole == lz_unpacked(input@),
            size == u32_at(input@, 0),
            out@.len() == size,
            offset <= size,
            ip <= n,
            bits <= 8,
            whole == lz_run(input@, out@, offset as int, ip as int, flags as int, bits as int, size as int),
        decreases n - ip,
    {
        if bits == 0 {
            flags = input[ip];
            ip += 1;
            bits = 8;
        } else if flags % 2 == 1 {
            out.set(offset, input[ip]);
            offset += 1;
            ip += 1;
            flags = flags / 2;
            bits -= 1;
        } else {
            if ip + 1 >= n {
                return Err(YetiError::ParseBounds { address: ip, len: 2 });
            }
            let info = input[ip] as u16 + input[ip + 1] as u16 * 256;
            let count: usize = 3 + ((info / 256) % 16) as usize;
            let buf: usize = ((info / 4096) as usize) * 256 + (info % 256) as usize;
            let back: usize = ((offset as u64 + 8192 - 18 - buf as u64) % 4096) as usize;
            proof {
                vstd::arithmetic::div_mod::lemma_mod_multiples_vanish(
                    2,
                    offset as int - 18 - buf as int,
                    4096,
                );
                assert(back as int == lz_back(offset as int, info));
            }
            let ghost target = lz_copy(out@, offset as int, back as int, count as int, size as int);
            let mut left: usize = count;
            while left > 0 && offset < size
                invariant
                    out@.len() == size,
                    offset <= size,
                    left <= count,
                    target == lz_copy(out@, offset as int, back as int, left as int, size as int),
                decreases left,
            {
                let v = if offset < back {
                    0
                } else {
                    out[offset - back]
                };
                out.set(offset, v);
                offset += 1;
                left -= 1;
            }
            assert(target == (out@, offset as int));
            ip += 2;
            flags = flags / 2;
            bits -= 1;
        }
    }
    Ok(out)
}

} // verus!
