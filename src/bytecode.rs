use vstd::prelude::*;
use crate::error::VmError;
use crate::opcode::{byte_of, OpCode};

verus! {

/// The eight little-endian bytes of `v`.
pub open spec fn le_bytes(v: u64) -> Seq<u8> {
    seq![
        (v & 0xff) as u8,
        ((v >> 8u64) & 0xff) as u8,
        ((v >> 16u64) & 0xff) as u8,
        ((v >> 24u64) & 0xff) as u8,
        ((v >> 32u64) & 0xff) as u8,
        ((v >> 40u64) & 0xff) as u8,
        ((v >> 48u64) & 0xff) as u8,
        ((v >> 56u64) & 0xff) as u8,
    ]
}

/// The little-endian `u64` held by the eight bytes of `s` that start at `at`.
pub open spec fn le_at(s: Seq<u8>, at: int) -> u64 {
    (s[at] as u64) | ((s[at + 1] as u64) << 8u64) | ((s[at + 2] as u64) << 16u64) | ((s[at
        + 3] as u64) << 24u64) | ((s[at + 4] as u64) << 32u64) | ((s[at + 5] as u64) << 40u64)
        | ((s[at + 6] as u64) << 48u64) | ((s[at + 7] as u64) << 56u64)
}

/// Reading back the eight bytes written for `v` gives `v`.
pub proof fn lemma_le_round_trip(s: Seq<u8>, at: int, v: u64)
    requires
        0 <= at,
        at + 8 <= s.len(),
        s.subrange(at, at + 8) == le_bytes(v),
    ensures
        le_at(s, at) == v,
{
    assert(s[at] == le_bytes(v)[0]);
    assert(s[at + 1] == le_bytes(v)[1]);
    assert(s[at + 2] == le_bytes(v)[2]);
    assert(s[at + 3] == le_bytes(v)[3]);
    assert(s[at + 4] == le_bytes(v)[4]);
    assert(s[at + 5] == le_bytes(v)[5]);
    assert(s[at + 6] == le_bytes(v)[6]);
    assert(s[at + 7] == le_bytes(v)[7]);
    let b0 = v & 0xff;
    let b1 = (v >> 8u64) & 0xff;
    let b2 = (v >> 16u64) & 0xff;
    let b3 = (v >> 24u64) & 0xff;
    let b4 = (v >> 32u64) & 0xff;
    let b5 = (v >> 40u64) & 0xff;
    let b6 = (v >> 48u64) & 0xff;
    let b7 = (v >> 56u64) & 0xff;
    assert(b0 < 256 && b1 < 256 && b2 < 256 && b3 < 256 && b4 < 256 && b5 < 256 && b6 < 256
        && b7 < 256) by (bit_vector)
        requires
            b0 == v & 0xff,
            b1 == (v >> 8u64) & 0xff,
            b2 == (v >> 16u64) & 0xff,
            b3 == (v >> 24u64) & 0xff,
            b4 == (v >> 32u64) & 0xff,
            b5 == (v >> 40u64) & 0xff,
            b6 == (v >> 48u64) & 0xff,
            b7 == (v >> 56u64) & 0xff,
    ;
    assert(b0 | (b1 << 8u64) | (b2 << 16u64) | (b3 << 24u64) | (b4 << 32u64) | (b5 << 40u64) | (
    b6 << 48u64) | (b7 << 56u64) == v) by (bit_vector)
        requires
            b0 == v & 0xff,
            b1 == (v >> 8u64) & 0xff,
            b2 == (v >> 16u64) & 0xff,
            b3 == (v >> 24u64) & 0xff,
            b4 == (v >> 32u64) & 0xff,
            b5 == (v >> 40u64) & 0xff,
            b6 == (v >> 48u64) & 0xff,
            b7 == (v >> 56u64) & 0xff,
    ;
}

/// Reads the little-endian `u64` at `at`; `None` when fewer than eight bytes are left.
pub fn read_u64(code: &Vec<u8>, at: usize) -> (r: Option<u64>)
    ensures
        r == (if at + 8 <= code@.len() {
            Some(le_at(code@, at as int))
        } else {
            None::<u64>
        }),
{
    if code.len() < 8 || at > code.len() - 8 {
        return None;
    }
    Some((code[at] as u64) | ((code[at + 1] as u64) << 8u64) | ((code[at + 2] as u64) << 16u64)
        | ((code[at + 3] as u64) << 24u64) | ((code[at + 4] as u64) << 32u64) | ((code[at
        + 5] as u64) << 40u64) | ((code[at + 6] as u64) << 48u64) | ((code[at + 7] as u64)
        << 56u64))
}

/// Appends the eight little-endian bytes of `v`.
pub fn push_u64(buf: &mut Vec<u8>, v: u64)
    ensures
        final(buf)@ == old(buf)@ + le_bytes(v),
{
    assert(v & 0xff <= 0xff && (v >> 8u64) & 0xff <= 0xff && (v >> 16u64) & 0xff <= 0xff && (v
        >> 24u64) & 0xff <= 0xff && (v >> 32u64) & 0xff <= 0xff && (v >> 40u64) & 0xff <= 0xff
        && (v >> 48u64) & 0xff <= 0xff && (v >> 56u64) & 0xff <= 0xff) by (bit_vector);
    buf.push((v & 0xff) as u8);
    buf.push(((v >> 8u64) & 0xff) as u8);
    buf.push(((v >> 16u64) & 0xff) as u8);
    buf.push(((v >> 24u64) & 0xff) as u8);
    buf.push(((v >> 32u64) & 0xff) as u8);
    buf.push(((v >> 40u64) & 0xff) as u8);
    buf.push(((v >> 48u64) & 0xff) as u8);
    buf.push(((v >> 56u64) & 0xff) as u8);
    assert(final(buf)@ =~= old(buf)@ + le_bytes(v));
}

} // verus!

verus! {

/// Overwrites the eight bytes at `at` with the little-endian bytes of `v`.
fn write_u64_at(buf: &mut Vec<u8>, at: usize, v: u64)
    requires
        at + 8 <= old(buf)@.len(),
    ensures
        final(buf)@.len() == old(buf)@.len(),
        final(buf)@.subrange(at as int, at + 8) == le_bytes(v),
        forall|i: int|
            0 <= i < old(buf)@.len() && !(at <= i < at + 8) ==> #[trigger] final(buf)@[i]
                == old(buf)@[i],
{
    assert(v & 0xff <= 0xff && (v >> 8u64) & 0xff <= 0xff && (v >> 16u64) & 0xff <= 0xff && (v
        >> 24u64) & 0xff <= 0xff && (v >> 32u64) & 0xff <= 0xff && (v >> 40u64) & 0xff <= 0xff
        && (v >> 48u64) & 0xff <= 0xff && (v >> 56u64) & 0xff <= 0xff) by (bit_vector);
    let n = buf.len();
    assert(at + 8 <= n);
    buf.set(at, (v & 0xff) as u8);
    buf.set(at + 1, ((v >> 8u64) & 0xff) as u8);
    buf.set(at + 2, ((v >> 16u64) & 0xff) as u8);
    buf.set(at + 3, ((v >> 24u64) & 0xff) as u8);
    buf.set(at + 4, ((v >> 32u64) & 0xff) as u8);
    buf.set(at + 5, ((v >> 40u64) & 0xff) as u8);
    buf.set(at + 6, ((v >> 48u64) & 0xff) as u8);
    buf.set(at + 7, ((v >> 56u64) & 0xff) as u8);
    assert(final(buf)@.subrange(at as int, at + 8) =~= le_bytes(v));
}

/// A site where an address operand was emitted: the label it refers to and the
/// position of its eight bytes.
#[derive(Debug, Clone, Copy, PartialEq, Eq, Structural)]
pub struct Patch {
    pub label: usize,
    pub position: usize,
}

/// An append-only instruction buffer with a label table. Address operands are
/// emitted as eight-byte sites and resolved when the buffer is finalized.
pub struct Bytecode {
    instructions: Vec<u8>,
    labels: Vec<Option<usize>>,
    patches: Vec<Patch>,
}

/// Whether position `i` lies inside one of the address sites.
pub open spec fn in_site(patches: Seq<Patch>, i: int) -> bool {
    exists|k: int| 0 <= k < patches.len() && #[trigger] patches[k].position <= i < patches[k].position + 8
}

impl Bytecode {
    /// The bytes emitted so far.
    pub closed spec fn code(&self) -> Seq<u8> {
        self.instructions@
    }

    /// Label targets: `None` for a label not marked yet.
    pub closed spec fn label_targets(&self) -> Seq<Option<usize>> {
        self.labels@
    }

    /// Every address site emitted so far, in order.
    pub closed spec fn sites(&self) -> Seq<Patch> {
        self.patches@
    }

    /// Labels are marked within the buffer, sites refer to allocated labels, lie
    /// within the buffer, and follow one another without overlap.
    pub closed spec fn wf(&self) -> bool {
        &&& forall|l: int|
            0 <= l < self.labels@.len() && (#[trigger] self.labels@[l]) is Some ==> self.labels@[l].unwrap()
                <= self.instructions@.len()
        &&& forall|k: int|
            0 <= k < self.patches@.len() ==> (#[trigger] self.patches@[k]).label < self.labels@.len()
                && self.patches@[k].position + 8 <= self.instructions@.len()
        &&& forall|j: int, k: int|
            0 <= j < k < self.patches@.len() ==> #[trigger] self.patches@[j].position + 8
                <= #[trigger] self.patches@[k].position
    }

    /// What well-formedness gives: marked labels lie within the code, and every
    /// site refers to an allocated label and lies within the code.
    pub proof fn lemma_wf(&self)
        requires
            self.wf(),
        ensures
            forall|l: int|
                0 <= l < self.label_targets().len() && (#[trigger] self.label_targets()[l]) is Some
                    ==> self.label_targets()[l].unwrap() <= self.code().len(),
            forall|k: int|
                0 <= k < self.sites().len() ==> (#[trigger] self.sites()[k]).label < self.label_targets().len()
                    && self.sites()[k].position + 8 <= self.code().len(),
            forall|j: int, k: int|
                0 <= j < k < self.sites().len() ==> #[trigger] self.sites()[j].position + 8
                    <= #[trigger] self.sites()[k].position,
            self.code().len() <= usize::MAX,
            self.label_targets().len() <= usize::MAX,
            self.sites().len() <= usize::MAX,
    {
        assert(self.patches@.len() == self.patches.len());
        assert(self.instructions@.len() == self.instructions.len());
        assert(self.labels@.len() == self.labels.len());
    }

    /// An empty buffer with no labels.
    pub fn new() -> (r: Bytecode)
        ensures
            r.wf(),
            r.code() == Seq::<u8>::empty(),
            r.label_targets() == Seq::<Option<usize>>::empty(),
            r.sites() == Seq::<Patch>::empty(),
    {
        Bytecode { instructions: Vec::new(), labels: Vec::new(), patches: Vec::new() }
    }

    /// Allocates a fresh label with no position.
    pub fn new_label(&mut self) -> (r: usize)
        requires
            old(self).wf(),
        ensures
            final(self).wf(),
            r == old(self).label_targets().len(),
            final(self).label_targets() == old(self).label_targets().push(None),
            final(self).code() == old(self).code(),
            final(self).sites() == old(self).sites(),
    {
        let r = self.labels.len();
        self.labels.push(None);
        r
    }

    /// Records the current length of the buffer as the target of `label`. Fails
    /// when the label was never allocated or is marked already.
    pub fn mark_label(&mut self, label: usize) -> (r: Result<(), VmError>)
        requires
            old(self).wf(),
        ensures
            final(self).wf(),
            final(self).code() == old(self).code(),
            final(self).sites() == old(self).sites(),
            r is Ok <==> label < old(self).label_targets().len() && old(self).label_targets()[label as int] is None,
            r is Ok ==> final(self).label_targets() == old(self).label_targets().update(
                label as int,
                Some(old(self).code().len() as usize),
            ),
            r is Err ==> r == Err::<(), VmError>(VmError::InternalInvariant) && final(self).label_targets() == old(self).label_targets(),
    {
        if label >= self.labels.len() {
            return Err(VmError::InternalInvariant);
        }
        if self.labels[label].is_some() {
            return Err(VmError::InternalInvariant);
        }
        let at = self.instructions.len();
        self.labels.set(label, Some(at));
        Ok(())
    }

    /// Every address site refers to a marked label.
    pub open spec fn all_resolved(&self) -> bool {
        forall|k: int|
            0 <= k < self.sites().len() ==> (#[trigger] self.label_targets()[self.sites()[k].label as int]) is Some
    }

    /// `c` is this buffer with every address site holding the target of its label.
    pub open spec fn resolves_to(&self, c: Seq<u8>) -> bool {
        &&& c.len() == self.code().len()
        &&& forall|k: int|
            0 <= k < self.sites().len() ==> c.subrange(
                (#[trigger] self.sites()[k]).position as int,
                self.sites()[k].position + 8,
            ) == le_bytes(self.label_targets()[self.sites()[k].label as int].unwrap() as u64)
        &&& forall|i: int|
            0 <= i < c.len() && !in_site(self.sites(), i) ==> #[trigger] c[i] == self.code()[i]
    }

    /// Resolves every address site to the absolute position of its label and
    /// hands out the finished code. Fails when a site refers to a label that was
    /// never marked.
    pub fn finalize(self) -> (r: Result<Vec<u8>, VmError>)
        requires
            self.wf(),
        ensures
            r is Ok <==> self.all_resolved(),
            r matches Ok(c) ==> self.resolves_to(c@),
            r matches Ok(c) ==> forall|l: int|
                0 <= l < self.label_targets().len() && (#[trigger] self.label_targets()[l]) is Some
                    ==> self.label_targets()[l].unwrap() <= c@.len(),
            r is Err ==> r == Err::<Vec<u8>, VmError>(VmError::InternalInvariant),
    {
        let ghost orig = self.code();
        let ghost labs = self.label_targets();
        let ghost sites = self.sites();
        let ghost me = self;
        let Bytecode { instructions, labels, patches } = self;
        let mut code = instructions;
        let mut k: usize = 0;
        while k < patches.len()
            invariant
                orig == instructions@,
                labs == labels@,
                me == self,
                me.label_targets() == labs,
                me.sites() == sites,
                sites == patches@,
                code@.len() == orig.len(),
                forall|l: int|
                    0 <= l < labs.len() && (#[trigger] labs[l]) is Some ==> labs[l].unwrap() <= orig.len(),
                forall|j: int|
                    0 <= j < sites.len() ==> (#[trigger] sites[j]).label < labs.len() && sites[j].position + 8
                        <= orig.len(),
                forall|i: int, j: int|
                    0 <= i < j < sites.len() ==> #[trigger] sites[i].position + 8 <= #[trigger] sites[j].position,
                0 <= k <= sites.len(),
                forall|j: int| 0 <= j < k ==> (#[trigger] labs[sites[j].label as int]) is Some,
                forall|j: int|
                    0 <= j < k ==> code@.subrange(
                        (#[trigger] sites[j]).position as int,
                        sites[j].position + 8,
                    ) == le_bytes(labs[sites[j].label as int].unwrap() as u64),
                forall|i: int|
                    0 <= i < orig.len() && (forall|j: int|
                        0 <= j < k ==> !(#[trigger] sites[j].position <= i < sites[j].position + 8))
                        ==> #[trigger] code@[i] == orig[i],
            decreases sites.len() - k,
        {
            let p = patches[k];
            let target = match labels[p.label] {
                Some(t) => t,
                None => {
                    assert(me.label_targets()[me.sites()[k as int].label as int] is None);
                    assert(!me.all_resolved());
                    return Err(VmError::InternalInvariant);
                },
            };
            let ghost prev = code@;
            write_u64_at(&mut code, p.position, target as u64);
            assert forall|j: int| 0 <= j < k + 1 implies code@.subrange(
                (#[trigger] sites[j]).position as int,
                sites[j].position + 8,
            ) == le_bytes(labs[sites[j].label as int].unwrap() as u64) by {
                if j < k {
                    assert(sites[j].position + 8 <= sites[k as int].position);
                    assert(code@.subrange(sites[j].position as int, sites[j].position + 8)
                        =~= prev.subrange(sites[j].position as int, sites[j].position + 8));
                }
            }
            k = k + 1;
        }
        assert forall|i: int| 0 <= i < code@.len() && !in_site(sites, i) implies #[trigger] code@[i] == orig[i] by {
            assert forall|j: int| 0 <= j < sites.len() implies !(#[trigger] sites[j].position <= i < sites[j].position + 8) by {
                if sites[j].position <= i < sites[j].position + 8 {
                    assert(in_site(sites, i));
                }
            }
        }
        Ok(code)
    }

    /// The last byte emitted, if any.
    pub fn last_byte(&self) -> (r: Option<u8>)
        ensures
            r == (if self.code().len() == 0 {
                None::<u8>
            } else {
                Some(self.code().last())
            }),
    {
        let n = self.instructions.len();
        if n == 0 {
            None
        } else {
            Some(self.instructions[n - 1])
        }
    }

    /// The number of address sites emitted so far.
    pub fn site_count(&self) -> (r: usize)
        ensures
            r == self.sites().len(),
    {
        self.patches.len()
    }

    /// Writes into site `k` the target of its label, which must be marked, so
    /// the address is final before `finalize`.
    pub fn patch_site(&mut self, k: usize)
        requires
            old(self).wf(),
            k < old(self).sites().len(),
            old(self).label_targets()[old(self).sites()[k as int].label as int] is Some,
        ensures
            final(self).wf(),
            final(self).label_targets() == old(self).label_targets(),
            final(self).sites() == old(self).sites(),
            ({
                let pos = old(self).sites()[k as int].position as int;
                let t = old(self).label_targets()[old(self).sites()[k as int].label as int].unwrap();
                final(self).code() == old(self).code().subrange(0, pos) + le_bytes(t as u64) + old(self).code().subrange(
                    pos + 8,
                    old(self).code().len() as int,
                )
            }),
    {
        let p = self.patches[k];
        let t = match self.labels[p.label] {
            Some(t) => t,
            None => 0,
        };
        let ghost c0 = self.instructions@;
        write_u64_at(&mut self.instructions, p.position, t as u64);
        assert(self.instructions@ =~= c0.subrange(0, p.position as int) + le_bytes(t as u64) + c0.subrange(
            p.position + 8,
            c0.len() as int,
        )) by {
            assert forall|i: int| p.position <= i < p.position + 8 implies self.instructions@[i] == le_bytes(t as u64)[i - p.position] by {
                assert(self.instructions@.subrange(p.position as int, p.position + 8)[i - p.position] == self.instructions@[i]);
            }
        }
    }

    /// Appends one raw byte.
    pub fn byte(&mut self, b: u8)
        requires
            old(self).wf(),
        ensures
            final(self).wf(),
            final(self).code() == old(self).code().push(b),
            final(self).label_targets() == old(self).label_targets(),
            final(self).sites() == old(self).sites(),
    {
        self.instructions.push(b);
    }

    /// Appends a little-endian `u64` operand.
    pub fn u64(&mut self, v: u64)
        requires
            old(self).wf(),
        ensures
            final(self).wf(),
            final(self).code() == old(self).code() + le_bytes(v),
            final(self).label_targets() == old(self).label_targets(),
            final(self).sites() == old(self).sites(),
    {
        push_u64(&mut self.instructions, v);
    }

    /// Appends an opcode tag.
    pub fn op(&mut self, op: OpCode)
        requires
            old(self).wf(),
        ensures
            final(self).wf(),
            final(self).code() == old(self).code().push(byte_of(op)),
            final(self).label_targets() == old(self).label_targets(),
            final(self).sites() == old(self).sites(),
    {
        let b = op.to_byte();
        self.byte(b);
    }

    /// Appends an opcode tag followed by one `u64` operand.
    pub fn op_u64(&mut self, op: OpCode, v: u64)
        requires
            old(self).wf(),
        ensures
            final(self).wf(),
            final(self).code() == old(self).code().push(byte_of(op)) + le_bytes(v),
            final(self).label_targets() == old(self).label_targets(),
            final(self).sites() == old(self).sites(),
    {
        self.op(op);
        self.u64(v);
    }

    /// Emits an eight-byte address site for `label`: its target when it is
    /// marked, a placeholder until `finalize` otherwise.
    pub fn address_of(&mut self, label: usize)
        requires
            old(self).wf(),
            label < old(self).label_targets().len(),
        ensures
            final(self).wf(),
            final(self).code().len() == old(self).code().len() + 8,
            final(self).code().subrange(0, old(self).code().len() as int) == old(self).code(),
            final(self).label_targets() == old(self).label_targets(),
            final(self).sites() == old(self).sites().push(
                Patch { label, position: old(self).code().len() as usize },
            ),
    {
        let position = self.instructions.len();
        let target: u64 = match self.labels[label] {
            Some(t) => t as u64,
            None => 0,
        };
        push_u64(&mut self.instructions, target);
        self.patches.push(Patch { label, position });
        assert(self.instructions@.subrange(0, position as int) =~= old(self).instructions@);
        assert forall|j: int, k: int|
            0 <= j < k < self.patches@.len() implies #[trigger] self.patches@[j].position + 8
                <= #[trigger] self.patches@[k].position by {
            if k == self.patches@.len() - 1 {
                assert(old(self).patches@[j].position + 8 <= old(self).instructions@.len());
            }
        }
    }

    /// Appends an opcode tag followed by an address site for `label`.
    pub fn op_label(&mut self, op: OpCode, label: usize)
        requires
            old(self).wf(),
            label < old(self).label_targets().len(),
        ensures
            final(self).wf(),
            final(self).code().len() == old(self).code().len() + 9,
            final(self).code().subrange(0, old(self).code().len() + 1int) == old(self).code().push(byte_of(op)),
            final(self).label_targets() == old(self).label_targets(),
            final(self).sites() == old(self).sites().push(
                Patch { label, position: (old(self).code().len() + 1) as usize },
            ),
    {
        self.op(op);
        let ghost mid = self.instructions@;
        self.address_of(label);
        assert(self.instructions@.subrange(0, old(self).instructions@.len() + 1int) =~= mid.subrange(0, mid.len() as int));
    }
}

} // verus!

verus! {

/// Finished code: a flat buffer of instructions whose addresses are resolved.
#[derive(Debug, Clone, PartialEq, Eq)]
pub struct CodeObject {
    pub instructions: Vec<u8>,
}

impl View for CodeObject {
    type V = Seq<u8>;

    open spec fn view(&self) -> Seq<u8> {
        self.instructions@
    }
}

impl CodeObject {
    /// Wraps finished instruction bytes.
    pub fn new(instructions: Vec<u8>) -> (r: CodeObject)
        ensures
            r@ == instructions@,
    {
        CodeObject { instructions }
    }
}

} // verus!
