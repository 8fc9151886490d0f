//! Scripts: reading a script's bytes into opcodes, and writing them back with every
//! jump target moved to where its opcode now stands.
use vstd::prelude::*;
use crate::error::YetiError;
use crate::bytes::{bounds_error, in_bounds, le16, le32, push_all, transmute_to_u32, u16_at, u32_at};
use crate::opcodes::{
    arms_bytes, SwitchArm,
    emit_mapped, inner_bytes, leaf_bytes, inner_window, lemma_emit_len, lemma_leaf_len, retarget,
    is_first, spec_address, spec_opcode, spec_size, unmoved, window_end, Custom77, InsertOpcode, Opcode, Relocation,
};
use crate::quirks::Quirks;
use crate::reader::{decodes, fits, kind_of, needs_quirk, OpKind};
use crate::sjis::{italic_entries, ItalicMap};

verus! {

/// The bytes before the first opcode.
#[derive(Debug, PartialEq, Eq)]
pub struct Header {
    pub bytes: Vec<u8>,
}

/// The bytes after the last opcode.
#[derive(Debug, PartialEq, Eq)]
pub struct Footer {
    pub bytes: Vec<u8>,
}

/// A script: a header, its opcodes in order, and a footer.
#[derive(Debug, PartialEq, Eq)]
pub struct Script {
    pub header: Header,
    pub opcodes: Vec<Opcode>,
    pub footer: Footer,
}

/// The total size of the first `k` opcodes.
pub open spec fn prefix_size(ops: Seq<Opcode>, k: int, t: Map<char, u16>) -> int
    decreases k,
{
    if k <= 0 {
        0
    } else {
        prefix_size(ops, k - 1, t) + spec_size(ops[k - 1], t)
    }
}

/// The addresses the opcodes were read from.
pub open spec fn olds_of(ops: Seq<Opcode>) -> Seq<u32> {
    Seq::new(ops.len(), |i: int| spec_address(ops[i]))
}

/// Where writing starts: the address of the first opcode.
pub open spec fn start_of(ops: Seq<Opcode>) -> int {
    if ops.len() > 0 {
        spec_address(ops[0]) as int
    } else {
        0
    }
}

/// The addresses the opcodes are written at: one after the other from `start_of`.
pub open spec fn news_of(ops: Seq<Opcode>, t: Map<char, u16>) -> Seq<u32> {
    Seq::new(ops.len(), |i: int| (start_of(ops) + prefix_size(ops, i, t)) as u32)
}

/// How jump targets move when the opcodes are written: a target goes to the new address
/// of the first opcode read from it.
pub open spec fn relocation_fn(ops: Seq<Opcode>, t: Map<char, u16>) -> spec_fn(u32) -> u32 {
    |x: u32| retarget(olds_of(ops), news_of(ops, t), x)
}

/// The bytes of the `i`-th opcode of a script: a tip that skips opcodes gets as its skip
/// length 4 plus the size of the opcodes its window covers.
#[verifier::opaque]
pub open spec fn top_item(ops: Seq<Opcode>, i: int, t: Map<char, u16>, f: spec_fn(u32) -> u32) -> Seq<u8> {
    match ops[i] {
        Opcode::Tip(c) => if c.skip > 0 {
            c.patched_bytes(
                ((4 + prefix_size(ops, window_end(i, c.skip as int, ops.len() as int), t)
                    - prefix_size(ops, i + 1, t)) % 65536) as u16,
            )
        } else {
            c.spec_bytes()
        },
        _ => emit_mapped(ops[i], t, f),
    }
}

/// The bytes of the first `n` opcodes of a script.
pub open spec fn top_bytes(ops: Seq<Opcode>, n: int, t: Map<char, u16>, f: spec_fn(u32) -> u32) -> Seq<u8>
    decreases n,
{
    if n <= 0 {
        seq![]
    } else {
        top_bytes(ops, n - 1, t, f) + top_item(ops, n - 1, t, f)
    }
}

/// Whether every jump target of an opcode other than an insert is the address of an opcode;
/// a choice target of 0 means no jump.
pub open spec fn leaf_targets_ok(op: Opcode, olds: Seq<u32>) -> bool {
    match op {
        Opcode::Jump2(o) => olds.contains(o.jump_address),
        Opcode::Jump4(o) => olds.contains(o.jump_address),
        Opcode::DirectJump(o) => olds.contains(o.jump_address),
        Opcode::Switch(o) => forall|k: int|
            0 <= k < o.arms@.len() ==> olds.contains(#[trigger] o.arms@[k].jump_address),
        Opcode::Choice(o) => forall|k: int|
            0 <= k < o.choices@.len() ==> (#[trigger] o.choices@[k]).jump_address == 0
                || olds.contains(o.choices@[k].jump_address),
        _ => true,
    }
}

/// Whether every jump target of an opcode, or of the opcodes of an insert at any depth, is
/// the address of an opcode.
pub open spec fn targets_ok(op: Opcode, olds: Seq<u32>) -> bool
    decreases op,
{
    match op {
        Opcode::Insert(ins) => forall|k: int|
            0 <= k < ins.contents@.len() ==> targets_ok(#[trigger] ins.contents@[k], olds),
        _ => leaf_targets_ok(op, olds),
    }
}

/// Whether the arms of a switch have distinct indices.
pub open spec fn leaf_arms_distinct(op: Opcode) -> bool {
    match op {
        Opcode::Switch(o) => forall|a: int, b: int|
            0 <= a < b < o.arms@.len() ==> (#[trigger] o.arms@[a]).index != (
            #[trigger] o.arms@[b]).index,
        _ => true,
    }
}

/// Whether no switch, on its own or in an insert at any depth, has two arms with one index.
pub open spec fn arms_distinct(op: Opcode) -> bool
    decreases op,
{
    match op {
        Opcode::Insert(ins) => forall|k: int|
            0 <= k < ins.contents@.len() ==> arms_distinct(#[trigger] ins.contents@[k]),
        _ => leaf_arms_distinct(op),
    }
}

/// Whether each tip among inserted opcodes that skips opcodes has that many after it,
/// and a window whose length fits in its two bytes.
pub open spec fn inner_tips_fit(ops: Seq<Opcode>, t: Map<char, u16>) -> bool {
    forall|i: int|
        0 <= i < ops.len() && #[trigger] ops[i] is Tip && ops[i]->Tip_0.skip > 0 ==> {
            let k = ops[i]->Tip_0.skip as int;
            &&& i + k < ops.len()
            &&& 4 + inner_window(ops, i + 1, i + 1 + k, t, unmoved()) <= 65535
        }
}

/// Whether the tips of an insert, and of the inserts in it at any depth, fit.
pub open spec fn insert_tips_fit(op: Opcode, t: Map<char, u16>) -> bool
    decreases op,
{
    match op {
        Opcode::Insert(ins) => inner_tips_fit(ins.contents@, t) && forall|k: int|
            0 <= k < ins.contents@.len() ==> insert_tips_fit(#[trigger] ins.contents@[k], t),
        _ => true,
    }
}

/// Whether each tip of a script that skips opcodes has that many after it, and a window
/// whose length fits in its two bytes; and the same within each insert.
pub open spec fn tips_fit(ops: Seq<Opcode>, t: Map<char, u16>) -> bool {
    &&& forall|i: int|
        0 <= i < ops.len() && #[trigger] ops[i] is Tip && ops[i]->Tip_0.skip > 0 ==> {
            let k = ops[i]->Tip_0.skip as int;
            &&& i + k < ops.len()
            &&& 4 + prefix_size(ops, i + 1 + k, t) - prefix_size(ops, i + 1, t) <= 65535
        }
    &&& forall|i: int| 0 <= i < ops.len() ==> insert_tips_fit(#[trigger] ops[i], t)
}

/// Whether the written opcodes end within 32-bit addresses.
pub open spec fn fits_u32(ops: Seq<Opcode>, t: Map<char, u16>) -> bool {
    start_of(ops) + prefix_size(ops, ops.len() as int, t) <= u32::MAX
}

/// Whether a script can be written: its addresses fit, each jump goes to an opcode, no
/// switch repeats an index, and every tip window fits.
pub open spec fn writable(ops: Seq<Opcode>, t: Map<char, u16>) -> bool {
    &&& fits_u32(ops, t)
    &&& forall|i: int| 0 <= i < ops.len() ==> targets_ok(#[trigger] ops[i], olds_of(ops))
    &&& forall|i: int| 0 <= i < ops.len() ==> arms_distinct(#[trigger] ops[i])
    &&& tips_fit(ops, t)
}

impl Script {
    /// The bytes of the script: its header, its opcodes with every jump target moved to
    /// the new address of its opcode, and its footer.
    pub open spec fn spec_bytes(&self, t: Map<char, u16>) -> Seq<u8> {
        let ops = self.opcodes@;
        self.header.bytes@ + top_bytes(ops, ops.len() as int, t, relocation_fn(ops, t))
            + self.footer.bytes@
    }
}

/// The total size of the first opcodes grows with their number.
pub proof fn lemma_prefix_mono(ops: Seq<Opcode>, a: int, b: int, t: Map<char, u16>)
    requires
        0 <= a <= b,
    ensures
        prefix_size(ops, a, t) <= prefix_size(ops, b, t),
    decreases b - a,
{
    reveal(spec_size);
    if a < b {
        lemma_prefix_mono(ops, a, b - 1, t);
    }
}

/// The first jump target of an opcode other than an insert that is no opcode's address.
#[verifier::loop_isolation(false)]
fn leaf_missing_target(op: &Opcode, rel: &Relocation) -> (r: Option<u32>)
    ensures
        r is None <==> leaf_targets_ok(*op, rel.olds@),
{
    match op {
        Opcode::Jump2(o) => if rel.position(o.jump_address).is_none() {
            Some(o.jump_address)
        } else {
            None
        },
        Opcode::Jump4(o) => if rel.position(o.jump_address).is_none() {
            Some(o.jump_address)
        } else {
            None
        },
        Opcode::DirectJump(o) => if rel.position(o.jump_address).is_none() {
            Some(o.jump_address)
        } else {
            None
        },
        Opcode::Switch(o) => {
            let mut k: usize = 0;
            while k < o.arms.len()
                invariant
                    k <= o.arms@.len(),
                    forall|j: int| 0 <= j < k ==> rel.olds@.contains(#[trigger] o.arms@[j].jump_address),
                decreases o.arms@.len() - k,
            {
                let x = o.arms[k].jump_address;
                if rel.position(x).is_none() {
                    assert(!rel.olds@.contains(o.arms@[k as int].jump_address));
                    return Some(x);
                }
                k += 1;
            }
            None
        },
        Opcode::Choice(o) => {
            let mut k: usize = 0;
            while k < o.choices.len()
                invariant
                    k <= o.choices@.len(),
                    forall|j: int|
                        0 <= j < k ==> (#[trigger] o.choices@[j]).jump_address == 0
                            || rel.olds@.contains(o.choices@[j].jump_address),
                decreases o.choices@.len() - k,
            {
                let x = o.choices[k].jump_address;
                if x != 0 && rel.position(x).is_none() {
                    assert(o.choices@[k as int].jump_address != 0 && !rel.olds@.contains(
                        o.choices@[k as int].jump_address,
                    ));
                    return Some(x);
                }
                k += 1;
            }
            None
        },
        _ => None,
    }
}

/// The first jump target of an opcode, or of the opcodes of an insert, that is no
/// opcode's address.
#[verifier::loop_isolation(false)]
fn missing_target(op: &Opcode, rel: &Relocation) -> (r: Option<u32>)
    ensures
        r is None <==> targets_ok(*op, rel.olds@),
    decreases *op,
{
    match op {
        Opcode::Insert(ins) => {
            let mut k: usize = 0;
            while k < ins.contents.len()
                invariant
                    k <= ins.contents@.len(),
                    forall|j: int| 0 <= j < k ==> targets_ok(#[trigger] ins.contents@[j], rel.olds@),
                decreases ins.contents@.len() - k,
            {
                let m = missing_target(&ins.contents[k], rel);
                if m.is_some() {
                    assert(!targets_ok(ins.contents@[k as int], rel.olds@));
                    return m;
                }
                k += 1;
            }
            None
        },
        _ => leaf_missing_target(op, rel),
    }
}

/// An index that two arms of a switch share.
#[verifier::loop_isolation(false)]
fn leaf_duplicate_index(op: &Opcode) -> (r: Option<u16>)
    ensures
        r is None <==> leaf_arms_distinct(*op),
{
    match op {
        Opcode::Switch(o) => {
            let n = o.arms.len();
            let mut b: usize = 0;
            while b < n
                invariant
                    n == o.arms@.len(),
                    b <= n,
                    forall|x: int, y: int|
                        0 <= x < y < b ==> (#[trigger] o.arms@[x]).index != (#[trigger] o.arms@[y]).index,
                decreases n - b,
            {
                let mut a: usize = 0;
                while a < b
                    invariant
                        n == o.arms@.len(),
                        a <= b < n,
                        forall|x: int| 0 <= x < a ==> (#[trigger] o.arms@[x]).index != o.arms@[b as int].index,
                    decreases b - a,
                {
                    if o.arms[a].index == o.arms[b].index {
                        assert(o.arms@[a as int].index == o.arms@[b as int].index);
                        return Some(o.arms[b].index);
                    }
                    a += 1;
                }
                b += 1;
            }
            None
        },
        _ => None,
    }
}

/// An index that two arms of a switch, on its own or in an insert, share.
#[verifier::loop_isolation(false)]
fn duplicate_index(op: &Opcode) -> (r: Option<u16>)
    ensures
        r is None <==> arms_distinct(*op),
    decreases *op,
{
    match op {
        Opcode::Insert(ins) => {
            let mut k: usize = 0;
            while k < ins.contents.len()
                invariant
                    k <= ins.contents@.len(),
                    forall|j: int| 0 <= j < k ==> arms_distinct(#[trigger] ins.contents@[j]),
                decreases ins.contents@.len() - k,
            {
                let m = duplicate_index(&ins.contents[k]);
                if m.is_some() {
                    assert(!arms_distinct(ins.contents@[k as int]));
                    return m;
                }
                k += 1;
            }
            None
        },
        _ => leaf_duplicate_index(op),
    }
}

/// Whether the tip windows among the opcodes of an insert fit.
#[verifier::loop_isolation(false)]
#[verifier::spinoff_prover]
#[verifier::rlimit(100)]
fn inner_tips_ok(ins: &InsertOpcode, italics: &ItalicMap) -> (r: bool)
    ensures
        r == inner_tips_fit(ins.contents@, italic_entries(*italics)),
{
    let ghost t = italic_entries(*italics);
    let ops = &ins.contents;
    let m = ops.len();
    let id = Relocation::identity();
    let mut i: usize = 0;
    while i < m
        invariant
            t == italic_entries(*italics),
            id.wf(),
            id.map_fn() == unmoved(),
            m == ops@.len(),
            i <= m,
            forall|x: int|
                0 <= x < i && #[trigger] ops@[x] is Tip && ops@[x]->Tip_0.skip > 0 ==> {
                    let k = ops@[x]->Tip_0.skip as int;
                    &&& x + k < m
                    &&& 4 + inner_window(ops@, x + 1, x + 1 + k, t, unmoved()) <= 65535
                },
        decreases m - i,
    {
        if let Opcode::Tip(c) = &ops[i] {
            if c.skip > 0 {
                let k = c.skip as usize;
                if k >= m - i {
                    assert(ops@[i as int] is Tip && ops@[i as int]->Tip_0.skip > 0);
                    return false;
                }
                let mut acc: usize = 4;
                let mut j: usize = i + 1;
                while j < i + 1 + k
                    invariant
                        t == italic_entries(*italics),
                        id.wf(),
                        id.map_fn() == unmoved(),
                        m == ops@.len(),
                        i + 1 + k <= m,
                        i < j <= i + 1 + k,
                        acc == 4 + inner_window(ops@, i + 1, j as int, t, unmoved()),
                        acc <= 65535,
                    decreases i + 1 + k - j,
                {
                    let l = ops[j].mapped_size(italics, &id);
                    assert(inner_window(ops@, i + 1, j + 1, t, unmoved()) == inner_window(
                        ops@,
                        i + 1,
                        j as int,
                        t,
                        unmoved(),
                    ) + l);
                    if l > 65535 - acc {
                        proof {
                            lemma_window_mono(ops@, i + 1, j + 1, i + 1 + k, t);
                        }
                        assert(ops@[i as int] is Tip && ops@[i as int]->Tip_0.skip > 0);
                        return false;
                    }
                    acc = acc + l;
                    j += 1;
                }
            }
        }
        i += 1;
    }
    true
}

/// Whether the tips of an insert, and of the inserts in it at any depth, fit.
#[verifier::loop_isolation(false)]
fn insert_tips_ok(op: &Opcode, italics: &ItalicMap) -> (r: bool)
    ensures
        r == insert_tips_fit(*op, italic_entries(*italics)),
    decreases *op,
{
    match op {
        Opcode::Insert(ins) => {
            if !inner_tips_ok(ins, italics) {
                return false;
            }
            let mut k: usize = 0;
            while k < ins.contents.len()
                invariant
                    k <= ins.contents@.len(),
                    forall|j: int|
                        0 <= j < k ==> insert_tips_fit(#[trigger] ins.contents@[j], italic_entries(*italics)),
                decreases ins.contents@.len() - k,
            {
                if !insert_tips_ok(&ins.contents[k], italics) {
                    assert(!insert_tips_fit(ins.contents@[k as int], italic_entries(*italics)));
                    return false;
                }
                k += 1;
            }
            true
        },
        _ => true,
    }
}

/// A longer run of inserted opcodes is no shorter.
proof fn lemma_window_mono(ops: Seq<Opcode>, lo: int, a: int, b: int, t: Map<char, u16>)
    requires
        lo <= a <= b <= ops.len(),
    ensures
        inner_window(ops, lo, a, t, unmoved()) <= inner_window(ops, lo, b, t, unmoved()),
    decreases b - a,
{
    if a < b {
        lemma_window_mono(ops, lo, a, b - 1, t);
    }
}

/// The length of the bytes of the first `n` opcodes is their total size.
pub proof fn lemma_top_len(ops: Seq<Opcode>, n: int, t: Map<char, u16>, f: spec_fn(u32) -> u32)
    requires
        0 <= n <= ops.len(),
    ensures
        top_bytes(ops, n, t, f).len() == prefix_size(ops, n, t),
    decreases n,
{
    if n > 0 {
        lemma_top_len(ops, n - 1, t, f);
        lemma_top_item_len(ops, n - 1, t, f);
    }
}

/// Whether `pre` holds the total size of the first `j` opcodes at each `j`.
pub open spec fn prefixes(pre: Seq<u32>, ops: Seq<Opcode>, t: Map<char, u16>) -> bool {
    pre.len() == ops.len() + 1 && forall|j: int| 0 <= j <= ops.len() ==> pre[j] == prefix_size(ops, j, t)
}

impl Script {
    /// Lays the opcodes out one after the other from the address of the first: the table
    /// from their old addresses to their new ones, and the running total of their sizes.
    #[verifier::spinoff_prover]
    fn layout(&self, italics: &ItalicMap) -> (r: Result<(Relocation, Vec<u32>), YetiError>)
        ensures
            r is Ok <==> fits_u32(self.opcodes@, italic_entries(*italics)),
            r is Err ==> r == Err::<(Relocation, Vec<u32>), YetiError>(YetiError::TooLarge),
            r is Ok ==> {
                let (rel, pre) = r->Ok_0;
                &&& rel.wf()
                &&& rel.olds@ == olds_of(self.opcodes@)
                &&& rel.news@ == news_of(self.opcodes@, italic_entries(*italics))
                &&& prefixes(pre@, self.opcodes@, italic_entries(*italics))
            },
    {
        let ghost t = italic_entries(*italics);
        let ghost ops = self.opcodes@;
        let n = self.opcodes.len();
        let start: u32 = if n > 0 {
            self.opcodes[0].address()
        } else {
            0
        };
        let mut olds: Vec<u32> = Vec::new();
        let mut news: Vec<u32> = Vec::new();
        let mut pre: Vec<u32> = Vec::new();
        let mut cursor: u32 = start;
        let mut total: u32 = 0;
        pre.push(0);
        let mut i: usize = 0;
        while i < n
            invariant
                t == italic_entries(*italics),
                ops == self.opcodes@,
                n == ops.len(),
                i <= n,
                start == start_of(ops),
                olds@ =~= olds_of(ops).take(i as int),
                news@ =~= news_of(ops, t).take(i as int),
                pre@.len() == i + 1,
                forall|j: int| 0 <= j <= i ==> pre@[j] == prefix_size(ops, j, t),
                total == prefix_size(ops, i as int, t),
                cursor == start + total,
            decreases n - i,
        {
            let op = &self.opcodes[i];
            olds.push(op.address());
            news.push(cursor);
            let s = op.size(italics);
            if s > (u32::MAX - cursor) as usize {
                proof {
                    lemma_prefix_mono(ops, i + 1, n as int, t);
                }
                return Err(YetiError::TooLarge);
            }
            cursor = cursor + s as u32;
            total = total + s as u32;
            pre.push(total);
            i += 1;
        }
        proof {
            assert(olds_of(ops).take(n as int) =~= olds_of(ops));
            assert(news_of(ops, t).take(n as int) =~= news_of(ops, t));
        }
        Ok((Relocation { olds, news }, pre))
    }

    /// Checks each opcode: its jump targets are addresses of opcodes, its switch indices
    /// are distinct and its tip windows fit.
    #[verifier::spinoff_prover]
    fn check(&self, italics: &ItalicMap, rel: &Relocation, pre: &Vec<u32>) -> (r: Result<(), YetiError>)
        requires
            rel.wf(),
            rel.olds@ == olds_of(self.opcodes@),
            prefixes(pre@, self.opcodes@, italic_entries(*italics)),
        ensures
            r is Ok <==> {
                &&& forall|i: int|
                    0 <= i < self.opcodes@.len() ==> targets_ok(
                        #[trigger] self.opcodes@[i],
                        olds_of(self.opcodes@),
                    )
                &&& forall|i: int|
                    0 <= i < self.opcodes@.len() ==> arms_distinct(#[trigger] self.opcodes@[i])
                &&& tips_fit(self.opcodes@, italic_entries(*italics))
            },
            r is Err && r->Err_0 is RelocTargetMissing ==> exists|i: int|
                0 <= i < self.opcodes@.len() && !targets_ok(
                    #[trigger] self.opcodes@[i],
                    olds_of(self.opcodes@),
                ),
            r is Err && r->Err_0 is DuplicateSwitchIndex ==> exists|i: int|
                0 <= i < self.opcodes@.len() && !arms_distinct(#[trigger] self.opcodes@[i]),
            r is Err && r->Err_0 is TipWindow ==> !tips_fit(
                self.opcodes@,
                italic_entries(*italics),
            ),
            r is Err ==> r->Err_0 is RelocTargetMissing || r->Err_0 is DuplicateSwitchIndex
                || r->Err_0 is TipWindow,
    {
        let ghost t = italic_entries(*italics);
        let ghost ops = self.opcodes@;
        let n = self.opcodes.len();
        let mut i: usize = 0;
        while i < n
            invariant
                t == italic_entries(*italics),
                ops == self.opcodes@,
                n == ops.len(),
                i <= n,
                rel.wf(),
                rel.olds@ == olds_of(ops),
                prefixes(pre@, ops, t),
                forall|j: int| 0 <= j < i ==> targets_ok(#[trigger] ops[j], olds_of(ops)),
                forall|j: int| 0 <= j < i ==> arms_distinct(#[trigger] ops[j]),
                forall|j: int|
                    0 <= j < i && #[trigger] ops[j] is Tip && ops[j]->Tip_0.skip > 0 ==> {
                        let k = ops[j]->Tip_0.skip as int;
                        &&& j + k < n
                        &&& 4 + prefix_size(ops, j + 1 + k, t) - prefix_size(ops, j + 1, t) <= 65535
                    },
                forall|j: int| 0 <= j < i ==> insert_tips_fit(#[trigger] ops[j], t),
            decreases n - i,
        {
            let op = &self.opcodes[i];
            if let Some(x) = missing_target(op, rel) {
                return Err(YetiError::RelocTargetMissing { address: op.address(), target: x });
            }
            if let Some(x) = duplicate_index(op) {
                return Err(YetiError::DuplicateSwitchIndex { address: op.address(), index: x });
            }
            match op {
                Opcode::Tip(c) => {
                    if c.skip > 0 {
                        let k = c.skip as usize;
                        if k >= n - i {
                            return Err(YetiError::TipWindow { address: c.address });
                        }
                        proof {
                            lemma_prefix_mono(ops, i + 1, i + 1 + k, t);
                        }
                        if pre[i + 1 + k] - pre[i + 1] > 65531 {
                            return Err(YetiError::TipWindow { address: c.address });
                        }
                    }
                },
                _ => {
                    if !insert_tips_ok(op, italics) {
                        return Err(YetiError::TipWindow { address: op.address() });
                    }
                },
            }
            i += 1;
        }
        Ok(())
    }

    /// Writes the header, each opcode with its targets moved and its tip patched, and the
    /// footer.
    #[verifier::spinoff_prover]
    fn write_all(&self, italics: &ItalicMap, rel: &Relocation, pre: &Vec<u32>) -> (r: Vec<u8>)
        requires
            rel.wf(),
            rel.map_fn() == relocation_fn(self.opcodes@, italic_entries(*italics)),
            prefixes(pre@, self.opcodes@, italic_entries(*italics)),
            tips_fit(self.opcodes@, italic_entries(*italics)),
        ensures
            r@ == self.spec_bytes(italic_entries(*italics)),
    {
        let ghost t = italic_entries(*italics);
        let ghost ops = self.opcodes@;
        let n = self.opcodes.len();
        let mut out: Vec<u8> = Vec::new();
        push_all(&mut out, self.header.bytes.as_slice());
        let mut i: usize = 0;
        while i < n
            invariant
                t == italic_entries(*italics),
                ops == self.opcodes@,
                n == ops.len(),
                i <= n,
                rel.wf(),
                rel.map_fn() == relocation_fn(ops, t),
                prefixes(pre@, ops, t),
                tips_fit(ops, t),
                out@ == self.header.bytes@ + top_bytes(ops, i as int, t, relocation_fn(ops, t)),
            decreases n - i,
        {
            match &self.opcodes[i] {
                Opcode::Tip(c) => {
                    if c.skip > 0 {
                        let k = c.skip as usize;
                        assert(ops[i as int] is Tip);
                        proof {
                            lemma_prefix_mono(ops, i + 1, i + 1 + k, t);
                        }
                        let offset = (4 + (pre[i + 1 + k] - pre[i + 1])) as u16;
                        let mut b = c.patched(offset);
                        out.append(&mut b);
                    } else {
                        let mut b = c.binary_serialize();
                        out.append(&mut b);
                    }
                },
                other => other.write_mapped(&mut out, italics, rel),
            }
            proof {
                reveal(top_item);
            }
            assert(out@ =~= self.header.bytes@ + top_bytes(ops, i + 1, t, relocation_fn(ops, t)));
            i += 1;
        }
        push_all(&mut out, self.footer.bytes.as_slice());
        out
    }

    /// Writes the script back to bytes. Each opcode is written at the address that follows
    /// the one before, starting at the address of the first; each jump target becomes the
    /// new address of the opcode that started at it; each tip that skips opcodes gets as
    /// its skip length 4 plus the size of the opcodes its window covers.
    pub fn binary_serialize(&self, italics: &ItalicMap) -> (r: Result<Vec<u8>, YetiError>)
        ensures
            r is Ok <==> writable(self.opcodes@, italic_entries(*italics)),
            r is Ok ==> r->Ok_0@ == self.spec_bytes(italic_entries(*italics)),
            r == Err::<Vec<u8>, YetiError>(YetiError::TooLarge) ==> !fits_u32(
                self.opcodes@,
                italic_entries(*italics),
            ),
            r is Err && r->Err_0 is RelocTargetMissing ==> exists|i: int|
                0 <= i < self.opcodes@.len() && !targets_ok(
                    #[trigger] self.opcodes@[i],
                    olds_of(self.opcodes@),
                ),
            r is Err && r->Err_0 is DuplicateSwitchIndex ==> exists|i: int|
                0 <= i < self.opcodes@.len() && !arms_distinct(#[trigger] self.opcodes@[i]),
            r is Err && r->Err_0 is TipWindow ==> !tips_fit(
                self.opcodes@,
                italic_entries(*italics),
            ),
            r is Err ==> r->Err_0 is TooLarge || r->Err_0 is RelocTargetMissing || r->Err_0 is DuplicateSwitchIndex
                || r->Err_0 is TipWindow,
            ({
                let ops = self.opcodes@;
                let t = italic_entries(*italics);
                let all_targets = forall|i: int|
                    0 <= i < ops.len() ==> targets_ok(#[trigger] ops[i], olds_of(ops));
                let all_distinct = forall|i: int| 0 <= i < ops.len() ==> arms_distinct(#[trigger] ops[i]);
                &&& !all_targets && fits_u32(ops, t) && all_distinct && tips_fit(ops, t)
                    ==> r is Err && r->Err_0 is RelocTargetMissing
                &&& !all_distinct && fits_u32(ops, t) && all_targets && tips_fit(ops, t)
                    ==> r is Err && r->Err_0 is DuplicateSwitchIndex
                &&& !tips_fit(ops, t) && fits_u32(ops, t) && all_targets && all_distinct
                    ==> r is Err && r->Err_0 is TipWindow
                &&& !fits_u32(ops, t) ==> r == Err::<Vec<u8>, YetiError>(YetiError::TooLarge)
            }),
    {
        let (rel, pre) = self.layout(italics)?;
        self.check(italics, &rel, &pre)?;
        assert(rel.map_fn() =~= relocation_fn(self.opcodes@, italic_entries(*italics)));
        Ok(self.write_all(italics, &rel, &pre))
    }
}

/// Whether the opcode at `a`, after one with byte `prev`, ends the script: a return
/// (0x05) followed by 0x00 or 0x05, or after a jump into another script (0x02), or with
/// fewer than 0x30 bytes left.
pub open spec fn ends_script(input: Seq<u8>, a: int, prev: u8) -> bool {
    input[a] == 0x05 && ((a + 1 < input.len() && (input[a + 1] == 0x00 || input[a + 1] == 0x05))
        || prev == 0x02 || input.len() - a < 0x30)
}

/// The byte of the opcode before the `i`-th, or 0 for the first.
pub open spec fn prev_byte(ops: Seq<Opcode>, i: int) -> u8 {
    if i <= 0 {
        0
    } else {
        spec_opcode(ops[i - 1])
    }
}

/// The opcode as it was read: a tip with its count of covered opcodes cleared.
pub open spec fn without_skip(op: Opcode) -> Opcode {
    match op {
        Opcode::Tip(c) => Opcode::Tip(Custom77 { skip: 0, ..c }),
        _ => op,
    }
}

/// Where the opcodes end: after the last, or at `h` where there is none.
pub open spec fn parsed_end(ops: Seq<Opcode>, h: int, t: Map<char, u16>) -> int {
    if ops.len() == 0 {
        h
    } else {
        spec_address(ops.last()) + spec_size(ops.last(), t)
    }
}

/// The sizes of the opcodes.
pub open spec fn sizes_of(ops: Seq<Opcode>, t: Map<char, u16>) -> Seq<int> {
    Seq::new(ops.len(), |i: int| spec_size(ops[i], t))
}

/// Counting from position `j` with `budget` bytes left and `count` opcodes taken: the
/// number of opcodes that fit before the first that does not, or `None` where the list
/// ends first.
pub open spec fn tip_fit(sizes: Seq<int>, j: int, budget: int, count: int) -> Option<int>
    decreases sizes.len() - j,
{
    if j < 0 || j >= sizes.len() {
        None
    } else if budget >= sizes[j] {
        tip_fit(sizes, j + 1, budget - sizes[j], count + 1)
    } else {
        Some(count)
    }
}

/// The number of opcodes a tip read at position `i` covers: from the tip itself on, the
/// opcodes whose sizes fit in its skip length less 3; 0 where the script ends first.
pub open spec fn tip_skip(ops: Seq<Opcode>, i: int, t: Map<char, u16>) -> int {
    match ops[i] {
        Opcode::Tip(c) => match tip_fit(sizes_of(ops, t), i, c.skip_bytes - 3, 0) {
            Some(k) => k,
            None => 0,
        },
        _ => 0,
    }
}

/// Whether `e` is what the reader answers for the bytes at `a` under `q` and `t`.
pub open spec fn read_error(e: YetiError, input: Seq<u8>, a: int, q: Quirks, t: Map<char, u16>) -> bool {
    if !in_bounds(a, 1, input.len() as int) {
        e == bounds_error(a as usize, 1)
    } else {
        let byte = input[a];
        match kind_of(byte, q) {
            None => if needs_quirk(byte, q) {
                e == YetiError::QuirkRequired { opcode: byte, address: a as usize }
            } else {
                e == YetiError::ParseOpcode { opcode: byte, address: a as usize }
            },
            Some(k) => e == crate::reader::shape_error(k, a, input, t) && !fits(k, a, input, t),
        }
    }
}

/// Whether `e` reports that the opcode read at `a` would, written back, run past the end
/// of the input: its size, measured under `t`, goes beyond the last byte.
pub open spec fn overrun_error(e: YetiError, input: Seq<u8>, a: int, q: Quirks, t: Map<char, u16>) -> bool {
    exists|op: Opcode|
        #[trigger] decodes(op, kind_of(input[a], q)->Some_0, a, input, t) && kind_of(input[a], q)
            is Some && a + spec_size(op, t) > input.len() && e == bounds_error(
            a as usize,
            spec_size(op, t) as usize,
        )
}

/// Whether `ops` are what reading `input` from `h` on gives under `q` and `t`: one after
/// the other from `h`, each read by the shape its byte stands for, none but the last
/// ending the script, and each tip counting the opcodes its window covers.
pub open spec fn parsed_from(ops: Seq<Opcode>, input: Seq<u8>, h: int, q: Quirks, t: Map<char, u16>) -> bool {
    &&& ops.len() > 0 ==> spec_address(ops[0]) == h
    &&& forall|i: int|
        0 < i < ops.len() ==> spec_address(#[trigger] ops[i]) == spec_address(ops[i - 1])
            + spec_size(ops[i - 1], t)
    &&& forall|i: int|
        0 <= i < ops.len() ==> {
            let a = spec_address(#[trigger] ops[i]) as int;
            &&& a < input.len()
            &&& kind_of(input[a], q) is Some
            &&& decodes(without_skip(ops[i]), kind_of(input[a], q)->Some_0, a, input, t)
        }
    &&& forall|i: int|
        0 <= i < ops.len() - 1 ==> !ends_script(
            input,
            spec_address(#[trigger] ops[i]) as int,
            prev_byte(ops, i),
        )
    &&& forall|i: int|
        0 <= i < ops.len() && #[trigger] ops[i] is Tip ==> ops[i]->Tip_0.skip_bytes >= 3
            && ops[i]->Tip_0.skip == tip_skip(ops, i, t)
}

/// Facts about an opcode read from bytes.
pub proof fn lemma_decoded(op: Opcode, k: OpKind, a: int, input: Seq<u8>, t: Map<char, u16>)
    requires
        decodes(op, k, a, input, t),
    ensures
        spec_address(op) == a as u32,
        spec_opcode(op) == input[a],
        !(op is Insert),
        spec_size(op, t) >= 1,
        (op is Tip) == (k == OpKind::Tip),
        op is Tip ==> op->Tip_0.skip == 0 && op->Tip_0.skip_bytes == u16_at(input, a + 2),
{
    reveal(decodes);
    reveal(spec_size);
}

/// Whether `r` is what reading the script `data` under the quirks `q` and the italic
/// mapping `t` gives: a bounds error where the first four bytes are missing, a header error
/// where the header they give is longer than the data; otherwise the header, the opcodes
/// read one after the other from its end until one ends the script, the data runs out or
/// an opcode cannot be read, and the footer after them, with the error that stopped the
/// reading.
pub open spec fn read_result(data: Seq<u8>, q: Quirks, t: Map<char, u16>, r: Result<(Script, Option<YetiError>), YetiError>) -> bool {
    &&& !in_bounds(0, 4, data.len() as int) ==> r == Err::<(Script, Option<YetiError>), YetiError>(
        bounds_error(0, 4))
    &&& in_bounds(0, 4, data.len() as int) && u32_at(data, 0) > data.len() ==> r == Err::<
        (Script, Option<YetiError>),
        YetiError,
    >(YetiError::ParseHeader { address: 0, header_size: u32_at(data, 0) as usize })
    &&& in_bounds(0, 4, data.len() as int) && u32_at(data, 0) <= data.len() ==> r is Ok
    &&& r is Ok ==> {
            let s = r->Ok_0.0;
            let e = r->Ok_0.1;
            let ops = s.opcodes@;
            let n = ops.len() as int;
            let h = u32_at(data, 0) as int;
            let end = parsed_end(ops, h, t);
            &&& s.header.bytes@ == data.subrange(0, h)
            &&& parsed_from(ops, data, h, q, t)
            &&& end <= data.len()
            &&& s.footer.bytes@ == data.subrange(end, data.len() as int)
            &&& e is None ==> end == data.len() || (n > 0 && ends_script(
                data,
                spec_address(ops[n - 1]) as int,
                prev_byte(ops, n - 1),
            ))
            &&& e is Some ==> end < data.len() && (n == 0 || !ends_script(
                data,
                spec_address(ops[n - 1]) as int,
                prev_byte(ops, n - 1),
            )) && (read_error(e->Some_0, data, end, q, t) || overrun_error(
                e->Some_0,
                data,
                end,
                q,
                t,
            ) || (e->Some_0 == YetiError::TipUnderflow { address: end as usize } && data[end]
                == 0x77 && kind_of(0x77, q) == Some(OpKind::Tip) && u16_at(data, end + 2)
                < 3))
        }
}

impl Script {
    /// Reads a script: the header whose length the first four bytes give, then opcodes
    /// until the script ends, the input runs out or an opcode cannot be read, then the
    /// footer. A reading error after the header comes back beside the opcodes read
    /// before it.
    #[verifier::spinoff_prover]
    pub fn new(data: &[u8], quirks: Quirks, italics: &ItalicMap) -> (r: Result<(Script, Option<YetiError>), YetiError>)
        requires
            data@.len() <= u32::MAX,
        ensures
            read_result(data@, quirks, italic_entries(*italics), r),
    {
        let ghost t = italic_entries(*italics);
        let h32 = transmute_to_u32(0, data)?;
        let h = h32 as usize;
        if h > data.len() {
            return Err(YetiError::ParseHeader { address: 0, header_size: h });
        }
        let mut header: Vec<u8> = Vec::new();
        let mut k: usize = 0;
        while k < h
            invariant
                h <= data@.len(),
                k <= h,
                header@ == data@.subrange(0, k as int),
            decreases h - k,
        {
            header.push(data[k]);
            k += 1;
            assert(header@ =~= data@.subrange(0, k as int));
        }
        let mut ops: Vec<Opcode> = Vec::new();
        let mut sizes: Vec<usize> = Vec::new();
        let mut address: usize = h;
        let mut err: Option<YetiError> = None;
        let mut prev: u8 = 0;
        let mut done = false;
        while !done && address < data.len()
            invariant
                t == italic_entries(*italics),
                data@.len() <= u32::MAX,
                h == u32_at(data@, 0),
                h <= data@.len(),
                address <= data@.len(),
                address == parsed_end(ops@, h as int, t),
                sizes@.len() == ops@.len(),
                forall|j: int| 0 <= j < ops@.len() ==> #[trigger] sizes@[j] == spec_size(ops@[j], t),
                prev == prev_byte(ops@, ops@.len() as int),
                ops@.len() > 0 ==> spec_address(ops@[0]) == h,
                forall|i: int|
                    0 < i < ops@.len() ==> spec_address(#[trigger] ops@[i]) == spec_address(ops@[i - 1])
                        + spec_size(ops@[i - 1], t),
                forall|i: int|
                    0 <= i < ops@.len() ==> {
                        let a = spec_address(#[trigger] ops@[i]) as int;
                        &&& a < data@.len()
                        &&& kind_of(data@[a], quirks) is Some
                        &&& decodes(ops@[i], kind_of(data@[a], quirks)->Some_0, a, data@, t)
                        &&& spec_size(ops@[i], t) >= 1
                    },
                forall|i: int|
                    0 <= i < ops@.len() - 1 ==> !ends_script(
                        data@,
                        spec_address(#[trigger] ops@[i]) as int,
                        prev_byte(ops@, i),
                    ),
                forall|i: int|
                    0 <= i < ops@.len() && #[trigger] ops@[i] is Tip ==> ops@[i]->Tip_0.skip_bytes >= 3
                        && ops@[i]->Tip_0.skip == 0,
                !done ==> err is None && (ops@.len() == 0 || !ends_script(
                    data@,
                    spec_address(ops@[ops@.len() - 1]) as int,
                    prev_byte(ops@, ops@.len() - 1),
                )),
                done && err is None ==> (ops@.len() > 0 && ends_script(
                    data@,
                    spec_address(ops@[ops@.len() - 1]) as int,
                    prev_byte(ops@, ops@.len() - 1),
                )),
                err is Some ==> done && address < data@.len() && (ops@.len() == 0
                    || !ends_script(
                    data@,
                    spec_address(ops@[ops@.len() - 1]) as int,
                    prev_byte(ops@, ops@.len() - 1),
                )) && (read_error(err->Some_0, data@, address as int, quirks, t) || overrun_error(
                    err->Some_0,
                    data@,
                    address as int,
                    quirks,
                    t,
                ) || (err->Some_0
                    == YetiError::TipUnderflow { address } && data@[address as int] == 0x77
                    && kind_of(0x77, quirks) == Some(OpKind::Tip) && u16_at(data@, address + 2) < 3)),
            decreases data@.len() - address + (if done { 0int } else { 1int }),
        {
            match Opcode::eat(address, data, quirks, italics) {
                Err(e) => {
                    err = Some(e);
                    done = true;
                },
                Ok(op) => {
                    let ghost k = kind_of(data@[address as int], quirks)->Some_0;
                    proof {
                        lemma_decoded(op, k, address as int, data@, t);
                    }
                    let byte = op.opcode();
                    let at_end = byte == 0x05 && ((address + 1 < data.len() && (data[address + 1]
                        == 0x00 || data[address + 1] == 0x05)) || prev == 0x02 || data.len()
                        - address < 0x30);
                    let size = op.size(italics);
                    let under = match &op {
                        Opcode::Tip(c) => c.skip_bytes < 3,
                        _ => false,
                    };
                    if under {
                        proof {
                            reveal(kind_of);
                        }
                        err = Some(YetiError::TipUnderflow { address });
                        done = true;
                    } else if size > data.len() - address {
                        err = Some(YetiError::ParseBounds { address, len: size });
                        done = true;
                        assert(overrun_error(err->Some_0, data@, address as int, quirks, t));
                    } else {
                        ops.push(op);
                        sizes.push(size);
                        prev = byte;
                        address = address + size;
                        if at_end {
                            done = true;
                        }
                        assert(ops@.last() == ops@[ops@.len() - 1]);
                    }
                },
            }
        }
        let mut footer: Vec<u8> = Vec::new();
        {
            let mut k: usize = address;
            while k < data.len()
                invariant
                    address <= k <= data@.len(),
                    footer@ == data@.subrange(address as int, k as int),
                decreases data@.len() - k,
            {
                footer.push(data[k]);
                k += 1;
                assert(footer@ =~= data@.subrange(address as int, k as int));
            }
        }
        let n = ops.len();
        let ghost ops0 = ops@;
        let ghost sz = sizes_of(ops0, t);
        assert forall|j: int| 0 <= j < n implies without_skip(#[trigger] ops0[j]) == ops0[j] by {
            if ops0[j] is Tip {
                assert(ops0[j]->Tip_0.skip == 0);
            }
        }
        let mut i: usize = 0;
        while i < n
            invariant
                t == italic_entries(*italics),
                n == ops@.len(),
                i <= n,
                sizes@.len() == n,
                sz == sizes_of(ops0, t),
                sizes_of(ops@, t) =~= sz,
                forall|j: int| 0 <= j < n ==> #[trigger] sizes@[j] == sz[j],
                forall|j: int| 0 <= j < n ==> sz[j] >= 1,
                forall|j: int| 0 <= j < n ==> without_skip(#[trigger] ops@[j]) == ops0[j],
                forall|j: int| i <= j < n ==> #[trigger] ops@[j] == ops0[j],
                forall|j: int|
                    0 <= j < n && #[trigger] ops0[j] is Tip ==> ops0[j]->Tip_0.skip_bytes >= 3,
                forall|j: int|
                    0 <= j < i && #[trigger] ops@[j] is Tip ==> ops@[j]->Tip_0.skip == tip_skip(
                        ops@,
                        j,
                        t,
                    ),
            decreases n - i,
        {
            let tip = match &ops[i] {
                Opcode::Tip(c) => Some(*c),
                _ => None,
            };
            if let Some(c) = tip {
                let budget0: usize = (c.skip_bytes - 3) as usize;
                let mut budget: usize = budget0;
                let mut count: usize = 0;
                let mut j: usize = i;
                let mut closed = false;
                while !closed && j < n
                    invariant
                        n == sizes@.len(),
                        n == sz.len(),
                        forall|x: int| 0 <= x < n ==> #[trigger] sizes@[x] == sz[x],
                        forall|x: int| 0 <= x < n ==> sz[x] >= 1,
                        i <= j <= n,
                        budget0 <= 65532,
                        count + budget <= budget0,
                        !closed ==> tip_fit(sz, i as int, budget0 as int, 0) == tip_fit(
                            sz,
                            j as int,
                            budget as int,
                            count as int,
                        ),
                        closed ==> tip_fit(sz, i as int, budget0 as int, 0) == Some(count as int),
                    decreases n - j + (if closed { 0int } else { 1int }),
                {
                    if budget >= sizes[j] {
                        budget = budget - sizes[j];
                        count = count + 1;
                        j = j + 1;
                    } else {
                        closed = true;
                    }
                }
                let skip: u16 = if closed {
                    count as u16
                } else {
                    0
                };
                let ghost before = ops@;
                ops.set(i, Opcode::Tip(Custom77 { skip, ..c }));
                assert(sizes_of(ops@, t) =~= sz) by {
                    reveal(spec_size);
                    assert forall|x: int| 0 <= x < n implies #[trigger] sizes_of(ops@, t)[x]
                        == sz[x] by {
                        if x != i {
                            assert(ops@[x] == before[x]);
                        }
                    }
                }
                assert(ops@[i as int] is Tip && ops@[i as int]->Tip_0.skip == tip_skip(
                    ops@,
                    i as int,
                    t,
                ));
            }
            i += 1;
        }
        Ok((Script { header: Header { bytes: header }, opcodes: ops, footer: Footer { bytes: footer } }, err))
    }
}

/// The old target of a plain jump.
pub open spec fn jump_target(op: Opcode) -> Option<u32> {
    match op {
        Opcode::Jump2(o) => Some(o.jump_address),
        Opcode::Jump4(o) => Some(o.jump_address),
        Opcode::DirectJump(o) => Some(o.jump_address),
        _ => None,
    }
}

/// Where the four target bytes of a plain jump stand within it.
pub open spec fn jump_field(op: Opcode) -> int {
    match op {
        Opcode::Jump2(o) => 3,
        Opcode::Jump4(o) => 5,
        _ => 1,
    }
}

/// The item written for each opcode is as long as the opcode.
pub proof fn lemma_top_item_len(ops: Seq<Opcode>, k: int, t: Map<char, u16>, f: spec_fn(u32) -> u32)
    requires
        0 <= k < ops.len(),
    ensures
        top_item(ops, k, t, f).len() == spec_size(ops[k], t),
{
    reveal(top_item);
    lemma_emit_len(ops[k], t, f);
}

/// Within the bytes of the first `n` opcodes, those of the `k`-th stand after the
/// sizes of the ones before it.
#[verifier::spinoff_prover]
pub proof fn lemma_top_slice(ops: Seq<Opcode>, n: int, k: int, t: Map<char, u16>, f: spec_fn(u32) -> u32)
    requires
        0 <= k < n <= ops.len(),
    ensures
        top_bytes(ops, n, t, f).subrange(prefix_size(ops, k, t), prefix_size(ops, k + 1, t))
            == top_item(ops, k, t, f),
    decreases n,
{
    lemma_top_len(ops, n - 1, t, f);
    lemma_top_item_len(ops, n - 1, t, f);
    lemma_top_item_len(ops, k, t, f);
    lemma_prefix_mono(ops, 0, k, t);
    lemma_prefix_mono(ops, k, k + 1, t);
    let a = top_bytes(ops, n - 1, t, f);
    let b = top_item(ops, n - 1, t, f);
    assert(top_bytes(ops, n, t, f) == a + b);
    if k < n - 1 {
        lemma_top_slice(ops, n - 1, k, t, f);
        lemma_prefix_mono(ops, k + 1, n - 1, t);
        lemma_concat_left(a, b, prefix_size(ops, k, t), prefix_size(ops, k + 1, t));
    } else {
        lemma_concat_right(a, b);
    }
}

/// A slice of a concatenation that ends within its first part.
proof fn lemma_concat_left(a: Seq<u8>, b: Seq<u8>, lo: int, hi: int)
    requires
        0 <= lo <= hi <= a.len(),
    ensures
        (a + b).subrange(lo, hi) == a.subrange(lo, hi),
{
    assert((a + b).subrange(lo, hi) =~= a.subrange(lo, hi));
}

/// The second part of a concatenation, as a slice of it.
proof fn lemma_concat_right(a: Seq<u8>, b: Seq<u8>)
    ensures
        (a + b).subrange(a.len() as int, (a.len() + b.len()) as int) == b,
{
    assert((a + b).subrange(a.len() as int, (a.len() + b.len()) as int) =~= b);
}

/// A slice of the middle part of a concatenation of three.
proof fn lemma_concat_mid(h: Seq<u8>, m: Seq<u8>, z: Seq<u8>, lo: int, hi: int)
    requires
        0 <= lo <= hi <= m.len(),
    ensures
        (h + m + z).subrange(h.len() + lo, h.len() + hi) == m.subrange(lo, hi),
{
    assert((h + m + z).subrange(h.len() + lo, h.len() + hi) =~= m.subrange(lo, hi));
}

/// A plain jump is written with its target passed through `f` in its four target bytes.
proof fn lemma_jump_written(op: Opcode, t: Map<char, u16>, f: spec_fn(u32) -> u32)
    requires
        jump_target(op) is Some,
    ensures
        emit_mapped(op, t, f).subrange(jump_field(op), jump_field(op) + 4) == le32(
            f(jump_target(op)->Some_0),
        ),
{
    assert(emit_mapped(op, t, f).subrange(jump_field(op), jump_field(op) + 4) =~= le32(
        f(jump_target(op)->Some_0),
    ));
}

/// After writing, a jump lands on the opcode it jumped to: it is written with the new
/// address of the first opcode that started at its old target, and the bytes at that
/// new address are the bytes of that opcode.
#[verifier::spinoff_prover]
pub proof fn law_relocation_identity(s: Script, t: Map<char, u16>, i: int)
    requires
        writable(s.opcodes@, t),
        s.header.bytes@.len() == start_of(s.opcodes@),
        0 <= i < s.opcodes@.len(),
        jump_target(s.opcodes@[i]) is Some,
    ensures
        ({
            let ops = s.opcodes@;
            let x = jump_target(ops[i])->Some_0;
            let f = relocation_fn(ops, t);
            exists|k: int|
                #[trigger] is_first(olds_of(ops), x, k) && {
                    let a = news_of(ops, t)[k] as int;
                    let p = jump_field(ops[i]);
                    &&& spec_address(ops[k]) == x
                    &&& top_item(ops, i, t, f).subrange(p, p + 4) == le32(a as u32)
                    &&& s.spec_bytes(t).subrange(a, a + spec_size(ops[k], t)) == top_item(ops, k, t, f)
                }
        }),
{
    let ops = s.opcodes@;
    let n = ops.len() as int;
    let x = jump_target(ops[i])->Some_0;
    let f = relocation_fn(ops, t);
    let olds = olds_of(ops);
    let news = news_of(ops, t);
    assert(targets_ok(ops[i], olds));
    let j = choose|j: int| 0 <= j < olds.len() && olds[j] == x;
    lemma_first_exists(olds, x, j);
    let k = choose|k: int| #[trigger] is_first(olds, x, k);
    assert(f(x) == news[k]);
    lemma_prefix_mono(ops, 0, k, t);
    lemma_prefix_mono(ops, k, k + 1, t);
    lemma_prefix_mono(ops, k, n, t);
    lemma_prefix_mono(ops, k + 1, n, t);
    let a = news[k] as int;
    assert(a == start_of(ops) + prefix_size(ops, k, t));
    lemma_top_len(ops, n, t, f);
    lemma_top_slice(ops, n, k, t, f);
    lemma_concat_mid(
        s.header.bytes@,
        top_bytes(ops, n, t, f),
        s.footer.bytes@,
        prefix_size(ops, k, t),
        prefix_size(ops, k + 1, t),
    );
    assert(!(ops[i] is Tip));
    lemma_jump_written(ops[i], t, f);
    lemma_item_is_emit(ops, i, t, f);
}

/// The item written for an opcode other than a tip is its bytes with targets moved.
pub proof fn lemma_item_is_emit(ops: Seq<Opcode>, i: int, t: Map<char, u16>, f: spec_fn(u32) -> u32)
    requires
        0 <= i < ops.len(),
        !(ops[i] is Tip),
    ensures
        top_item(ops, i, t, f) == emit_mapped(ops[i], t, f),
{
    reveal(top_item);
}

/// A value that occurs in a sequence has a first occurrence.
proof fn lemma_first_exists(olds: Seq<u32>, x: u32, j: int)
    requires
        0 <= j < olds.len(),
        olds[j] == x,
    ensures
        exists|k: int| #[trigger] is_first(olds, x, k),
    decreases j,
{
    if forall|m: int| 0 <= m < j ==> olds[m] != x {
        assert(is_first(olds, x, j));
    } else {
        let m = choose|m: int| 0 <= m < j && olds[m] == x;
        lemma_first_exists(olds, x, m);
    }
}

/// A tip that covers `k` opcodes is written with skip length 4 plus the total size of the
/// `k` opcodes after it; the window lies within the script and its length fits in two
/// bytes.
pub proof fn law_tip_skip(s: Script, t: Map<char, u16>, i: int)
    requires
        writable(s.opcodes@, t),
        0 <= i < s.opcodes@.len(),
        s.opcodes@[i] is Tip,
        s.opcodes@[i]->Tip_0.skip > 0,
    ensures
        ({
            let ops = s.opcodes@;
            let c = ops[i]->Tip_0;
            let k = c.skip as int;
            let w = prefix_size(ops, i + 1 + k, t) - prefix_size(ops, i + 1, t);
            &&& i + k < ops.len()
            &&& 4 + w <= 65535
            &&& top_item(ops, i, t, relocation_fn(ops, t)) == seq![c.opcode, c.condition] + le16(
                (4 + w) as u16,
            )
        }),
{
    reveal(top_item);
    let ops = s.opcodes@;
    lemma_prefix_mono(ops, i + 1, i + 1 + ops[i]->Tip_0.skip as int, t);
}

/// Among inserted opcodes, a tip that covers `k` opcodes is written with skip length 4
/// plus the total size of the `k` opcodes after it, wherever their jumps go.
pub proof fn law_inserted_tip_skip(ins: InsertOpcode, t: Map<char, u16>, f: spec_fn(u32) -> u32, i: int)
    requires
        inner_tips_fit(ins.contents@, t),
        0 <= i < ins.contents@.len(),
        ins.contents@[i] is Tip,
        ins.contents@[i]->Tip_0.skip > 0,
    ensures
        ({
            let ops = ins.contents@;
            let c = ops[i]->Tip_0;
            let k = c.skip as int;
            let w = inner_window(ops, i + 1, i + 1 + k, t, unmoved());
            &&& i + k < ops.len()
            &&& 4 + w <= 65535
            &&& crate::opcodes::inner_item(ops, i, t, f) == seq![c.opcode, c.condition] + le16(
                (4 + w) as u16,
            )
        }),
{
    let ops = ins.contents@;
    let k = ops[i]->Tip_0.skip as int;
    crate::opcodes::lemma_inner_window(ops, i + 1, i + 1 + k, t, f, unmoved());
    lemma_inner_window_nonneg(ops, i + 1, i + 1 + k, t);
}

/// A run of inserted opcodes has a size of at least 0.
proof fn lemma_inner_window_nonneg(ops: Seq<Opcode>, lo: int, hi: int, t: Map<char, u16>)
    ensures
        inner_window(ops, lo, hi, t, unmoved()) >= 0,
    decreases hi - lo,
{
    if hi > lo {
        lemma_inner_window_nonneg(ops, lo, hi - 1, t);
    }
}

/// In a script just read, each opcode starts at the header length plus the sizes of the
/// opcodes before it.
pub proof fn lemma_read_address(ops: Seq<Opcode>, input: Seq<u8>, h: int, q: Quirks, t: Map<char, u16>, i: int)
    requires
        parsed_from(ops, input, h, q, t),
        0 <= i < ops.len(),
    ensures
        spec_address(ops[i]) as int == h + prefix_size(ops, i, t),
    decreases i,
{
    if i > 0 {
        lemma_read_address(ops, input, h, q, t, i - 1);
        assert(spec_address(ops[i]) == spec_address(ops[i - 1]) + spec_size(ops[i - 1], t));
    }
}

/// Writing a script just read puts each opcode back at the address it was read from, so
/// the rewriting of jump targets leaves every target that names an opcode as it was.
pub proof fn law_read_layout_kept(ops: Seq<Opcode>, input: Seq<u8>, h: int, q: Quirks, t: Map<char, u16>)
    requires
        parsed_from(ops, input, h, q, t),
    ensures
        news_of(ops, t) == olds_of(ops),
        forall|x: u32| olds_of(ops).contains(x) ==> #[trigger] (relocation_fn(ops, t))(x) == x,
{
    assert forall|i: int| 0 <= i < ops.len() implies #[trigger] news_of(ops, t)[i] == olds_of(ops)[i] by {
        lemma_read_address(ops, input, h, q, t, i);
    }
    assert(news_of(ops, t) =~= olds_of(ops));
    assert forall|x: u32| olds_of(ops).contains(x) implies #[trigger] (relocation_fn(ops, t))(x) == x by {
        let j = choose|j: int| 0 <= j < olds_of(ops).len() && olds_of(ops)[j] == x;
        lemma_first_exists(olds_of(ops), x, j);
    }
}

/// After writing, every jump target `x` that names an opcode moves to the new address of
/// the first opcode read from `x`, and the bytes at that new address are that opcode's.
/// Every jump, switch arm and non-zero choice target is written through this mapping.
pub proof fn law_relocation_target(s: Script, t: Map<char, u16>, x: u32)
    requires
        fits_u32(s.opcodes@, t),
        s.header.bytes@.len() == start_of(s.opcodes@),
        olds_of(s.opcodes@).contains(x),
    ensures
        ({
            let ops = s.opcodes@;
            let f = relocation_fn(ops, t);
            exists|k: int|
                #[trigger] is_first(olds_of(ops), x, k) && {
                    let a = news_of(ops, t)[k] as int;
                    &&& spec_address(ops[k]) == x
                    &&& f(x) == a as u32
                    &&& a == start_of(ops) + prefix_size(ops, k, t)
                    &&& s.spec_bytes(t).subrange(a, a + spec_size(ops[k], t)) == top_item(ops, k, t, f)
                }
        }),
{
    let ops = s.opcodes@;
    let n = ops.len() as int;
    let f = relocation_fn(ops, t);
    let olds = olds_of(ops);
    let news = news_of(ops, t);
    let j = choose|j: int| 0 <= j < olds.len() && olds[j] == x;
    lemma_first_exists(olds, x, j);
    let k = choose|k: int| #[trigger] is_first(olds, x, k);
    assert(f(x) == news[k]);
    lemma_prefix_mono(ops, 0, k, t);
    lemma_prefix_mono(ops, k, k + 1, t);
    lemma_prefix_mono(ops, k, n, t);
    lemma_prefix_mono(ops, k + 1, n, t);
    let a = news[k] as int;
    assert(a == start_of(ops) + prefix_size(ops, k, t));
    lemma_top_len(ops, n, t, f);
    lemma_top_slice(ops, n, k, t, f);
    lemma_concat_mid(
        s.header.bytes@,
        top_bytes(ops, n, t, f),
        s.footer.bytes@,
        prefix_size(ops, k, t),
        prefix_size(ops, k + 1, t),
    );
}

/// The `m`-th arm of a switch is written at `6 * m` among its arms: its index, then its
/// target passed through `f`, in the declared order.
pub proof fn law_switch_arm_written(arms: Seq<SwitchArm>, f: spec_fn(u32) -> u32, m: int)
    requires
        0 <= m < arms.len(),
    ensures
        arms_bytes(arms, f).len() == 6 * arms.len(),
        arms_bytes(arms, f).subrange(6 * m, 6 * m + 6) == le16(arms[m].index) + le32(
            f(arms[m].jump_address),
        ),
    decreases arms.len(),
{
    lemma_arms_len_six(arms, f);
    let init = arms.drop_last();
    lemma_arms_len_six(init, f);
    if m < arms.len() - 1 {
        law_switch_arm_written(init, f, m);
        assert(arms_bytes(arms, f).subrange(6 * m, 6 * m + 6) =~= arms_bytes(init, f).subrange(
            6 * m,
            6 * m + 6,
        ));
    } else {
        assert(arms_bytes(arms, f).subrange(6 * m, 6 * m + 6) =~= le16(arms[m].index) + le32(
            f(arms[m].jump_address),
        ));
    }
}

/// Each arm of a switch takes six bytes.
proof fn lemma_arms_len_six(arms: Seq<SwitchArm>, f: spec_fn(u32) -> u32)
    ensures
        arms_bytes(arms, f).len() == 6 * arms.len(),
    decreases arms.len(),
{
    if arms.len() > 0 {
        lemma_arms_len_six(arms.drop_last(), f);
    }
}

/// In the bytes of a script, a tip that covers `k` opcodes stands at its new address with
/// skip length 4 plus the total size of the `k` opcodes after it.
pub proof fn law_tip_written(s: Script, t: Map<char, u16>, i: int)
    requires
        writable(s.opcodes@, t),
        s.header.bytes@.len() == start_of(s.opcodes@),
        0 <= i < s.opcodes@.len(),
        s.opcodes@[i] is Tip,
        s.opcodes@[i]->Tip_0.skip > 0,
    ensures
        ({
            let ops = s.opcodes@;
            let c = ops[i]->Tip_0;
            let k = c.skip as int;
            let a = start_of(ops) + prefix_size(ops, i, t);
            let w = prefix_size(ops, i + 1 + k, t) - prefix_size(ops, i + 1, t);
            &&& a == news_of(ops, t)[i]
            &&& 4 + w <= 65535
            &&& s.spec_bytes(t).subrange(a, a + 4) == seq![c.opcode, c.condition] + le16(
                (4 + w) as u16,
            )
        }),
{
    let ops = s.opcodes@;
    let n = ops.len() as int;
    let f = relocation_fn(ops, t);
    law_tip_skip(s, t, i);
    lemma_prefix_mono(ops, 0, i, t);
    lemma_prefix_mono(ops, i, i + 1, t);
    lemma_prefix_mono(ops, i + 1, n, t);
    lemma_top_item_len(ops, i, t, f);
    lemma_top_len(ops, n, t, f);
    lemma_top_slice(ops, n, i, t, f);
    lemma_concat_mid(
        s.header.bytes@,
        top_bytes(ops, n, t, f),
        s.footer.bytes@,
        prefix_size(ops, i, t),
        prefix_size(ops, i + 1, t),
    );
}

} // verus!
