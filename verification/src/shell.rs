//! The interactive shell the kernel starts in user mode: a small x86 program
//! and its data, assembled byte by byte.
//!
//! The shell prints a prompt, reads a line a byte at a time echoing it, and
//! runs `help` (print the command list), `ls` (list the root directory) or
//! `cat <file>` (print a file), all through system calls.
use vstd::prelude::*;

verus! {

/// Address the shell's code is loaded at.
pub const USER_CODE_BASE: u32 = 0x4000_0000;
/// Address of the one-byte input buffer and of the output buffer.
pub const BUF_ADDR: u32 = 0x4000_0000 + 4000;
/// Address of the line buffer.
pub const LINE_BUF_ADDR: u32 = 0x4000_0000 + 3000;
/// Address of the prompt text.
pub const PROMPT_ADDR: u32 = 0x4000_0000 + 2000;
/// Address of the help text.
pub const HELP_MSG_ADDR: u32 = 0x4000_0000 + 2100;
/// Address of the path `ls` lists.
pub const LS_PATH_ADDR: u32 = 0x4000_0000 + 2200;
/// Top of the user stack.
pub const USER_STACK_TOP: u32 = 0xA000_4000;

/// Length of the help text.
pub const HELP_MSG_LEN: usize = 41;

/// Length of the shell program in bytes.
pub const SHELL_CODE_LEN: usize = 437;

/// The little-endian 32-bit value of the four bytes at `s`.
pub open spec fn le_u32_at(code: Seq<u8>, s: int) -> int {
    code[s] + 256 * code[s + 1] + 65536 * code[s + 2] + 16777216 * code[s + 3]
}

/// The rel32 displacement at `site` jumps to `target`: it is the distance
/// from the end of the displacement to the target, modulo 2^32.
pub open spec fn jumps_to(code: Seq<u8>, site: int, target: int) -> bool {
    le_u32_at(code, site) == (target - (site + 4)) % 0x1_0000_0000
}

/// Two four-byte fields do not overlap.
pub open spec fn apart(a: int, b: int) -> bool {
    a + 4 <= b || b + 4 <= a
}

/// The four little-endian bytes of `v`.
pub open spec fn le_bytes(v: u32) -> Seq<u8> {
    seq![v as u8, (v >> 8u32) as u8, (v >> 16u32) as u8, (v >> 24u32) as u8]
}

/// The rel32 displacement from the end of a field at `site` to `target`,
/// modulo 2^32.
pub open spec fn rel32_value(site: int, target: int) -> u32 {
    ((target - (site + 4)) % 0x1_0000_0000) as u32
}

/// `b` with the four-byte field at `site` holding the displacement to
/// `target`.
pub open spec fn patched(b: Seq<u8>, site: int, target: int) -> Seq<u8> {
    let v = rel32_value(site, target);
    b.update(site, v as u8).update(site + 1, (v >> 8u32) as u8).update(site + 2, (v >> 16u32) as u8)
        .update(site + 3, (v >> 24u32) as u8)
}

/// A program being assembled: its bytes, the rel32 jumps already resolved
/// (site and target), and the displacement fields still to be filled.
pub struct Assembler {
    code: Vec<u8>,
    jumps: Ghost<Seq<(int, int)>>,
    holes: Ghost<Set<int>>,
}

impl Assembler {
    /// The bytes emitted so far.
    pub closed spec fn bytes(&self) -> Seq<u8> {
        self.code@
    }

    /// The resolved jumps, as (site, target) pairs.
    pub closed spec fn resolved(&self) -> Seq<(int, int)> {
        self.jumps@
    }

    /// The displacement fields reserved and not yet filled.
    pub closed spec fn pending(&self) -> Set<int> {
        self.holes@
    }

    /// Every resolved jump lands on its target; resolved and pending fields
    /// lie inside the code and do not overlap one another.
    pub closed spec fn wf(&self) -> bool {
        &&& forall|k: int| 0 <= k < self.jumps@.len() ==> {
            let (s, t) = #[trigger] self.jumps@[k];
            0 <= s && s + 4 <= self.code@.len() && jumps_to(self.code@, s, t)
        }
        &&& forall|h: int| #[trigger] self.holes@.contains(h) ==> 0 <= h && h + 4 <= self.code@.len()
        &&& forall|k: int, l: int| 0 <= k < l < self.jumps@.len() ==> apart((#[trigger] self.jumps@[k]).0, (#[trigger] self.jumps@[l]).0)
        &&& forall|k: int, h: int| 0 <= k < self.jumps@.len() && #[trigger] self.holes@.contains(h) ==> apart((#[trigger] self.jumps@[k]).0, h)
        &&& forall|h: int, g: int| #[trigger] self.holes@.contains(h) && #[trigger] self.holes@.contains(g) && h != g ==> apart(h, g)
    }

    /// An empty program.
    pub fn new() -> (a: Self)
        ensures
            a.wf(),
            a.bytes() == Seq::<u8>::empty(),
            a.resolved() == Seq::<(int, int)>::empty(),
            a.pending() == Set::<int>::empty(),
    {
        Assembler { code: Vec::new(), jumps: Ghost(Seq::empty()), holes: Ghost(Set::empty()) }
    }

    /// Number of bytes emitted so far.
    pub fn len(&self) -> (n: usize)
        ensures
            n == self.bytes().len(),
    {
        self.code.len()
    }

    /// Appends one byte.
    pub fn emit(&mut self, b: u8)
        requires
            old(self).wf(),
        ensures
            final(self).wf(),
            final(self).bytes() == old(self).bytes().push(b),
            final(self).resolved() == old(self).resolved(),
            final(self).pending() == old(self).pending(),
    {
        let ghost before = self.code@;
        self.code.push(b);
        proof {
            assert forall|k: int| 0 <= k < self.jumps@.len() implies {
                let (s, t) = #[trigger] self.jumps@[k];
                0 <= s && s + 4 <= self.code@.len() && jumps_to(self.code@, s, t)
            } by {
                let (s, t) = self.jumps@[k];
                assert(jumps_to(before, s, t));
                assert(self.code@[s] == before[s] && self.code@[s + 1] == before[s + 1]
                    && self.code@[s + 2] == before[s + 2] && self.code@[s + 3] == before[s + 3]);
            }
        }
    }

    /// Appends `v` as four little-endian bytes.
    pub fn emit_u32(&mut self, v: u32)
        requires
            old(self).wf(),
        ensures
            final(self).wf(),
            final(self).bytes() == old(self).bytes() + le_bytes(v),
            le_u32_at(final(self).bytes(), old(self).bytes().len() as int) == v,
            final(self).resolved() == old(self).resolved(),
            final(self).pending() == old(self).pending(),
    {
        let ghost start = self.code@;
        self.emit(v as u8);
        self.emit((v >> 8u32) as u8);
        self.emit((v >> 16u32) as u8);
        self.emit((v >> 24u32) as u8);
        proof {
            assert(self.code@ =~= start + seq![v as u8, (v >> 8u32) as u8, (v >> 16u32) as u8, (v >> 24u32) as u8]);
            lemma_le_bytes(v);
        }
    }

    /// Reserves a four-byte displacement field at the end of the program and
    /// returns where it is.
    pub fn reserve_rel32(&mut self) -> (site: usize)
        requires
            old(self).wf(),
        ensures
            final(self).wf(),
            site == old(self).bytes().len(),
            final(self).bytes() == old(self).bytes() + seq![0u8, 0u8, 0u8, 0u8],
            final(self).resolved() == old(self).resolved(),
            final(self).pending() == old(self).pending().insert(site as int),
    {
        let site = self.code.len();
        self.emit_u32(0);
        proof {
            assert(0u32 as u8 == 0u8 && (0u32 >> 8u32) as u8 == 0u8 && (0u32 >> 16u32) as u8 == 0u8
                && (0u32 >> 24u32) as u8 == 0u8) by (bit_vector);
            self.holes@ = self.holes@.insert(site as int);
        }
        site
    }

    /// Appends a rel32 displacement, at the current end, that jumps back or
    /// forward to `target`.
    pub fn emit_rel32(&mut self, target: usize)
        requires
            old(self).wf(),
            target <= u32::MAX,
            old(self).bytes().len() + 4 <= u32::MAX,
        ensures
            final(self).wf(),
            final(self).bytes() == old(self).bytes() + le_bytes(rel32_value(old(self).bytes().len() as int, target as int)),
            final(self).bytes().len() == old(self).bytes().len() + 4,
            final(self).bytes().subrange(0, old(self).bytes().len() as int) == old(self).bytes(),
            final(self).resolved() == old(self).resolved().push((old(self).bytes().len() as int, target as int)),
            final(self).pending() == old(self).pending(),
    {
        let site = self.code.len();
        let ghost before = self.code@;
        let disp = rel32(site, target);
        self.emit_u32(disp);
        proof {
            assert(self.code@.subrange(0, before.len() as int) =~= before);
            let j = self.jumps@;
            self.jumps@ = j.push((site as int, target as int));
            assert forall|k: int, h: int| 0 <= k < self.jumps@.len() && #[trigger] self.holes@.contains(h) implies apart((#[trigger] self.jumps@[k]).0, h) by {
                if k < j.len() {
                    assert(j[k] == self.jumps@[k]);
                }
            }
            assert forall|k: int, l: int| 0 <= k < l < self.jumps@.len() implies apart((#[trigger] self.jumps@[k]).0, (#[trigger] self.jumps@[l]).0) by {
                assert(self.jumps@[k] == j[k]);
                if l < j.len() {
                    assert(self.jumps@[l] == j[l]);
                }
            }
            assert forall|k: int| 0 <= k < self.jumps@.len() implies {
                let (s, t) = #[trigger] self.jumps@[k];
                0 <= s && s + 4 <= self.code@.len() && jumps_to(self.code@, s, t)
            } by {
                if k < j.len() {
                    assert(self.jumps@[k] == j[k]);
                }
            }
        }
    }

    /// Fills the reserved field at `site` so that it jumps to `target`.
    pub fn patch_rel32(&mut self, site: usize, target: usize)
        requires
            old(self).wf(),
            old(self).pending().contains(site as int),
            target <= u32::MAX,
            site + 4 <= u32::MAX,
        ensures
            final(self).wf(),
            final(self).bytes() == patched(old(self).bytes(), site as int, target as int),
            final(self).bytes().len() == old(self).bytes().len(),
            final(self).resolved() == old(self).resolved().push((site as int, target as int)),
            final(self).pending() == old(self).pending().remove(site as int),
            forall|i: int| 0 <= i < old(self).bytes().len() && (i < site || i >= site + 4)
                ==> #[trigger] final(self).bytes()[i] == old(self).bytes()[i],
    {
        let ghost before = self.code@;
        let ghost j = self.jumps@;
        let ghost holes = self.holes@;
        let disp = rel32(site, target);
        proof {
            lemma_le_bytes(disp);
        }
        self.code.set(site, disp as u8);
        self.code.set(site + 1, (disp >> 8u32) as u8);
        self.code.set(site + 2, (disp >> 16u32) as u8);
        self.code.set(site + 3, (disp >> 24u32) as u8);
        proof {
            self.jumps@ = j.push((site as int, target as int));
            self.holes@ = holes.remove(site as int);
            assert forall|i: int| 0 <= i < before.len() && (i < site || i >= site + 4) implies #[trigger] self.code@[i] == before[i] by {}
            assert forall|k: int| 0 <= k < self.jumps@.len() implies {
                let (s, t) = #[trigger] self.jumps@[k];
                0 <= s && s + 4 <= self.code@.len() && jumps_to(self.code@, s, t)
            } by {
                if k < j.len() {
                    assert(self.jumps@[k] == j[k]);
                    let (s, t) = j[k];
                    assert(apart(s, site as int));
                    assert(jumps_to(before, s, t));
                    assert(self.code@[s] == before[s] && self.code@[s + 1] == before[s + 1]
                        && self.code@[s + 2] == before[s + 2] && self.code@[s + 3] == before[s + 3]);
                }
            }
            assert forall|k: int, l: int| 0 <= k < l < self.jumps@.len() implies apart((#[trigger] self.jumps@[k]).0, (#[trigger] self.jumps@[l]).0) by {
                assert(self.jumps@[k] == j[k]);
                if l < j.len() {
                    assert(self.jumps@[l] == j[l]);
                }
            }
            assert forall|k: int, h: int| 0 <= k < self.jumps@.len() && #[trigger] self.holes@.contains(h) implies apart((#[trigger] self.jumps@[k]).0, h) by {
                if k < j.len() {
                    assert(j[k] == self.jumps@[k]);
                } else {
                    assert(holes.contains(h) && h != site);
                }
            }
        }
    }

    /// The finished program.
    pub fn finish(self) -> (code: Vec<u8>)
        ensures
            code@ == self.bytes(),
    {
        self.code
    }
}

/// The displacement from the end of a field at `site` to `target`, modulo 2^32.
fn rel32(site: usize, target: usize) -> (d: u32)
    requires
        target <= u32::MAX,
        site + 4 <= u32::MAX,
    ensures
        d == (target - (site + 4)) % 0x1_0000_0000,
{
    let x = target as u64 + 0x1_0000_0000u64 - (site as u64 + 4);
    proof {
        vstd::arithmetic::div_mod::lemma_mod_add_multiples_vanish(target - (site + 4), 0x1_0000_0000);
        vstd::arithmetic::div_mod::lemma_mod_bound(x as int, 0x1_0000_0000);
    }
    (x % 0x1_0000_0000u64) as u32
}

impl Assembler {
    /// Every resolved jump lands on its target inside the code.
    pub proof fn lemma_resolved(&self)
        requires
            self.wf(),
        ensures
            forall|k: int| 0 <= k < self.resolved().len() ==> 0 <= (#[trigger] self.resolved()[k]).0
                && self.resolved()[k].0 + 4 <= self.bytes().len()
                && jumps_to(self.bytes(), self.resolved()[k].0, self.resolved()[k].1),
    {
        assert forall|k: int| 0 <= k < self.resolved().len() implies 0 <= (#[trigger] self.resolved()[k]).0
            && self.resolved()[k].0 + 4 <= self.bytes().len()
            && jumps_to(self.bytes(), self.resolved()[k].0, self.resolved()[k].1) by {
            let (s, tg) = self.jumps@[k];
        }
    }
}

/// Emits an instruction made of one opcode byte and a 32-bit immediate.
fn op_imm(a: &mut Assembler, opcode: u8, imm: u32)
    requires
        old(a).wf(),
    ensures
        final(a).wf(),
        final(a).bytes() == old(a).bytes().push(opcode) + le_bytes(imm),
        final(a).bytes().len() == old(a).bytes().len() + 5,
        final(a).bytes().subrange(0, old(a).bytes().len() as int) == old(a).bytes(),
        final(a).resolved() == old(a).resolved(),
        final(a).pending() == old(a).pending(),
{
    let ghost before = a.bytes();
    a.emit(opcode);
    a.emit_u32(imm);
    proof {
        assert(a.bytes().subrange(0, before.len() as int) =~= before);
    }
}

/// Emits `int 0x80`, the system-call trap.
fn syscall_trap(a: &mut Assembler)
    requires
        old(a).wf(),
    ensures
        final(a).wf(),
        final(a).bytes() == old(a).bytes().push(0xCDu8).push(0x80u8),
        final(a).bytes().len() == old(a).bytes().len() + 2,
        final(a).bytes().subrange(0, old(a).bytes().len() as int) == old(a).bytes(),
        final(a).resolved() == old(a).resolved(),
        final(a).pending() == old(a).pending(),
{
    let ghost before = a.bytes();
    a.emit(0xCD);
    a.emit(0x80);
    proof {
        assert(a.bytes().subrange(0, before.len() as int) =~= before);
    }
}

/// The rel32 jumps of the shell program, as (site, target): the line
/// reader's branches on end of line, its loop back, the command dispatch to
/// `help`, `ls`, `cat` and the fall-through, and the returns to the prompt.
pub open spec fn shell_jumps() -> Seq<(int, int)> {
    seq![
        (104, 27), (80, 108), (88, 108), (175, 0), (132, 179), (148, 179), (245, 272), (319, 0),
        (184, 323), (199, 323), (328, 432), (344, 432), (123, 432), (433, 0),
    ]
}

/// `b` followed by an instruction made of one opcode byte and a 32-bit
/// immediate.
pub open spec fn with_op(b: Seq<u8>, opcode: u8, imm: u32) -> Seq<u8> {
    b.push(opcode) + le_bytes(imm)
}

/// `b` followed by `int 0x80`.
pub open spec fn with_trap(b: Seq<u8>) -> Seq<u8> {
    b.push(0xCDu8).push(0x80u8)
}

/// `b` followed by a displacement field to be filled once its label is
/// reached.
pub open spec fn with_hole(b: Seq<u8>) -> Seq<u8> {
    b + seq![0u8, 0u8, 0u8, 0u8]
}

/// `b` followed by a displacement that jumps to `target`.
pub open spec fn with_jump(b: Seq<u8>, target: int) -> Seq<u8> {
    b + le_bytes(rel32_value(b.len() as int, target))
}

/// The shell program: its parts in order, each forward jump's field laid down
/// empty and filled in when its label is reached.
pub open spec fn shell_listing() -> Seq<u8> {
    cat_print_bytes(cat_read_bytes(ls_print_bytes(ls_request_bytes(help_bytes(read_line_bytes(Seq::empty()))))))
}

/// The prompt and the line reader: write the prompt, then read a byte, echo it,
/// and store it in the line buffer until a line feed or carriage return.
pub open spec fn read_line_bytes(b: Seq<u8>) -> Seq<u8> {
    // write the prompt
    let b = with_op(b, 0xB8, 4);
    let b = with_op(b, 0xBB, 1);
    let b = with_op(b, 0xB9, PROMPT_ADDR);
    let b = with_op(b, 0xBA, 8);
    let b = with_trap(b);
    // line length = 0 (in ebp)
    let b = with_op(b, 0xBD, 0);
    // read one byte
    let b = with_op(b, 0xB8, 3);
    let b = with_op(b, 0xBB, 0);
    let b = with_op(b, 0xB9, BUF_ADDR);
    let b = with_op(b, 0xBA, 1);
    let b = with_trap(b);
    // echo it
    let b = with_op(b, 0xB8, 4);
    let b = with_op(b, 0xBB, 1);
    let b = with_op(b, 0xB9, BUF_ADDR);
    let b = with_op(b, 0xBA, 1);
    let b = with_trap(b);
    // mov al, [buf]
    let b = with_op(b, 0xA0, BUF_ADDR);
    // cmp al, 10; je process
    let b = b.push(0x3Cu8);
    let b = b.push(0x0Au8);
    let b = b.push(0x0Fu8);
    let b = b.push(0x84u8);
    let b = with_hole(b);
    // cmp al, 13; je process
    let b = b.push(0x3Cu8);
    let b = b.push(0x0Du8);
    let b = b.push(0x0Fu8);
    let b = b.push(0x84u8);
    let b = with_hole(b);
    // line[ebp] = al; ebp += 1
    let b = b.push(0x89u8);
    let b = b.push(0xE9u8);
    let b = b.push(0x81u8);
    let b = b.push(0xC1u8);
    let b = b + le_bytes(LINE_BUF_ADDR);
    let b = b.push(0x88u8);
    let b = b.push(0x01u8);
    let b = b.push(0x45u8);
    // jmp read_loop
    let b = b.push(0xE9u8);
    let b = with_jump(b, 27);
    b
}

/// End of line: terminate the line; an empty line goes back to the prompt;
/// `help` prints the command list.
pub open spec fn help_bytes(b: Seq<u8>) -> Seq<u8> {
    let b = patched(b, 80, 108);
    let b = patched(b, 88, 108);
    // line[ebp] = 0
    let b = b.push(0x89u8);
    let b = b.push(0xE9u8);
    let b = b.push(0x81u8);
    let b = b.push(0xC1u8);
    let b = b + le_bytes(LINE_BUF_ADDR);
    let b = b.push(0xC6u8);
    let b = b.push(0x01u8);
    let b = b.push(0x00u8);
    // empty line: back to the prompt
    let b = b.push(0x85u8);
    let b = b.push(0xEDu8);
    let b = b.push(0x0Fu8);
    let b = b.push(0x84u8);
    let b = with_hole(b);
    // "help"
    let b = b.push(0x83u8);
    let b = b.push(0xFDu8);
    let b = b.push(0x04u8);
    let b = b.push(0x0Fu8);
    let b = b.push(0x85u8);
    let b = with_hole(b);
    let b = b.push(0x81u8);
    let b = b.push(0x3Du8);
    let b = b + le_bytes(LINE_BUF_ADDR);
    let b = b + le_bytes(0x706C_6568);
    let b = b.push(0x0Fu8);
    let b = b.push(0x85u8);
    let b = with_hole(b);
    let b = with_op(b, 0xB8, 4);
    let b = with_op(b, 0xBB, 1);
    let b = with_op(b, 0xB9, HELP_MSG_ADDR);
    let b = with_op(b, 0xBA, HELP_MSG_LEN as u32);
    let b = with_trap(b);
    let b = b.push(0xE9u8);
    let b = with_jump(b, 0);
    b
}

/// `ls`, first part: open `/` and read its listing into the buffer.
pub open spec fn ls_request_bytes(b: Seq<u8>) -> Seq<u8> {
    let b = patched(b, 132, 179);
    let b = patched(b, 148, 179);
    // "ls"
    let b = b.push(0x83u8);
    let b = b.push(0xFDu8);
    let b = b.push(0x02u8);
    let b = b.push(0x0Fu8);
    let b = b.push(0x85u8);
    let b = with_hole(b);
    let b = b.push(0x66u8);
    let b = b.push(0x81u8);
    let b = b.push(0x3Du8);
    let b = b + le_bytes(LINE_BUF_ADDR);
    let b = b.push(0x6Cu8);
    let b = b.push(0x73u8);
    let b = b.push(0x0Fu8);
    let b = b.push(0x85u8);
    let b = with_hole(b);
    // open "/"
    let b = with_op(b, 0xB8, 5);
    let b = with_op(b, 0xBB, LS_PATH_ADDR);
    let b = with_op(b, 0xB9, 1);
    let b = with_trap(b);
    // readdir into the buffer
    let b = b.push(0x89u8);
    let b = b.push(0xC3u8);
    let b = with_op(b, 0xB8, 6);
    let b = with_op(b, 0xB9, BUF_ADDR);
    let b = with_op(b, 0xBA, 1000);
    let b = with_trap(b);
    // nothing listed: print nothing
    let b = b.push(0x89u8);
    let b = b.push(0xC2u8);
    let b = b.push(0x85u8);
    let b = b.push(0xD2u8);
    let b = b.push(0x0Fu8);
    let b = b.push(0x84u8);
    let b = with_hole(b);
    // turn every NUL of the listing into a line feed
    let b = b.push(0x31u8);
    let b = b.push(0xC9u8);
    b
}

/// `ls`, second part: turn the NULs of the listing into line feeds, print it
/// and a line feed, and go back to the prompt.
pub open spec fn ls_print_bytes(b: Seq<u8>) -> Seq<u8> {
    let b = b.push(0x80u8);
    let b = b.push(0xB9u8);
    let b = b + le_bytes(BUF_ADDR);
    let b = b.push(0x00u8);
    let b = b.push(0x75u8);
    let b = b.push(0x07u8);
    let b = b.push(0xC6u8);
    let b = b.push(0x81u8);
    let b = b + le_bytes(BUF_ADDR);
    let b = b.push(0x0Au8);
    let b = b.push(0x41u8);
    let b = b.push(0x39u8);
    let b = b.push(0xD1u8);
    let b = b.push(0x72u8);
    let b = b.push(0xEBu8);
    let b = patched(b, 245, 272);
    let b = with_op(b, 0xB8, 4);
    let b = with_op(b, 0xBB, 1);
    let b = with_op(b, 0xB9, BUF_ADDR);
    let b = with_trap(b);
    // then a line feed
    let b = with_op(b, 0xB8, 4);
    let b = with_op(b, 0xBB, 1);
    let b = b.push(0xC6u8);
    let b = b.push(0x05u8);
    let b = b + le_bytes(BUF_ADDR);
    let b = b.push(0x0Au8);
    let b = with_op(b, 0xB9, BUF_ADDR);
    let b = with_op(b, 0xBA, 1);
    let b = with_trap(b);
    let b = b.push(0xE9u8);
    let b = with_jump(b, 0);
    b
}

/// `cat <file>`, first part: open the named file and read it into the buffer.
pub open spec fn cat_read_bytes(b: Seq<u8>) -> Seq<u8> {
    let b = patched(b, 184, 323);
    let b = patched(b, 199, 323);
    // "cat <file>"
    let b = b.push(0x83u8);
    let b = b.push(0xFDu8);
    let b = b.push(0x04u8);
    let b = b.push(0x0Fu8);
    let b = b.push(0x8Eu8);
    let b = with_hole(b);
    let b = b.push(0x81u8);
    let b = b.push(0x3Du8);
    let b = b + le_bytes(LINE_BUF_ADDR);
    let b = b + le_bytes(0x2074_6163);
    let b = b.push(0x0Fu8);
    let b = b.push(0x85u8);
    let b = with_hole(b);
    // open the file named after "cat "
    let b = with_op(b, 0xB8, 5);
    let b = with_op(b, 0xBB, (LINE_BUF_ADDR + 4) as u32);
    let b = b.push(0x89u8);
    let b = b.push(0xE9u8);
    let b = b.push(0x83u8);
    let b = b.push(0xE9u8);
    let b = b.push(0x04u8);
    let b = with_trap(b);
    // read it into the buffer
    let b = b.push(0x89u8);
    let b = b.push(0xC3u8);
    let b = with_op(b, 0xB8, 3);
    let b = with_op(b, 0xB9, BUF_ADDR);
    let b = with_op(b, 0xBA, 1000);
    let b = with_trap(b);
    b
}

/// `cat <file>`, second part: print what was read and a line feed; then the
/// landing place of every line that is no command, back to the prompt.
pub open spec fn cat_print_bytes(b: Seq<u8>) -> Seq<u8> {
    // write what was read
    let b = b.push(0x89u8);
    let b = b.push(0xC2u8);
    let b = with_op(b, 0xB8, 4);
    let b = with_op(b, 0xBB, 1);
    let b = with_op(b, 0xB9, BUF_ADDR);
    let b = with_trap(b);
    // then a line feed
    let b = with_op(b, 0xB8, 4);
    let b = with_op(b, 0xBB, 1);
    let b = b.push(0xC6u8);
    let b = b.push(0x05u8);
    let b = b + le_bytes(BUF_ADDR);
    let b = b.push(0x0Au8);
    let b = with_op(b, 0xB9, BUF_ADDR);
    let b = with_op(b, 0xBA, 1);
    let b = with_trap(b);
    let b = patched(b, 328, 432);
    let b = patched(b, 344, 432);
    let b = patched(b, 123, 432);
    let b = b.push(0xE9u8);
    let b = with_jump(b, 0);
    b
}

/// The prompt and the loop that reads a line, echoing it.
fn emit_read_line(a: &mut Assembler) -> (r: (usize, usize))
    requires
        old(a).wf(),
        old(a).bytes().len() == 0,
        old(a).resolved() == Seq::<(int, int)>::empty(),
        old(a).pending() == Set::<int>::empty(),
    ensures
        final(a).wf(),
        final(a).bytes() == read_line_bytes(old(a).bytes()),
        final(a).bytes().len() == 108,
        r == (80usize, 88usize),
        final(a).resolved() == seq![(104int, 27int)],
        final(a).pending() == set![80int, 88int],
{

    // write the prompt
    op_imm(a, 0xB8, 4);
    op_imm(a, 0xBB, 1);
    op_imm(a, 0xB9, PROMPT_ADDR);
    op_imm(a, 0xBA, 8);
    syscall_trap(a);
    // line length = 0 (in ebp)
    op_imm(a, 0xBD, 0);

    let read_loop_start = a.len();
    // read one byte
    op_imm(a, 0xB8, 3);
    op_imm(a, 0xBB, 0);
    op_imm(a, 0xB9, BUF_ADDR);
    op_imm(a, 0xBA, 1);
    syscall_trap(a);
    // echo it
    op_imm(a, 0xB8, 4);
    op_imm(a, 0xBB, 1);
    op_imm(a, 0xB9, BUF_ADDR);
    op_imm(a, 0xBA, 1);
    syscall_trap(a);
    // mov al, [buf]
    op_imm(a, 0xA0, BUF_ADDR);
    // cmp al, 10; je process
    a.emit(0x3C);
    a.emit(0x0A);
    a.emit(0x0F);
    a.emit(0x84);
    let je_process = a.reserve_rel32();
    // cmp al, 13; je process
    a.emit(0x3C);
    a.emit(0x0D);
    a.emit(0x0F);
    a.emit(0x84);
    let je_process2 = a.reserve_rel32();
    // line[ebp] = al; ebp += 1
    a.emit(0x89);
    a.emit(0xE9);
    a.emit(0x81);
    a.emit(0xC1);
    a.emit_u32(LINE_BUF_ADDR);
    a.emit(0x88);
    a.emit(0x01);
    a.emit(0x45);
    // jmp read_loop
    a.emit(0xE9);
    a.emit_rel32(read_loop_start);

    proof {
        assert(a.pending() =~= set![80int, 88int]);
    }
    (je_process, je_process2)
}

/// The end-of-line handling and the `help` command.
fn emit_help(a: &mut Assembler, je_process: usize, je_process2: usize) -> (r: (usize, usize, usize))
    requires
        old(a).wf(),
        old(a).bytes().len() == 108,
        je_process == 80,
        je_process2 == 88,
        old(a).resolved() == seq![(104int, 27int)],
        old(a).pending() == set![80int, 88int],
    ensures
        final(a).wf(),
        final(a).bytes() == help_bytes(old(a).bytes()),
        final(a).bytes().len() == 179,
        r == (123usize, 132usize, 148usize),
        final(a).resolved() == seq![(104int, 27int), (80int, 108int), (88int, 108int), (175int, 0int)],
        final(a).pending() == set![123int, 132int, 148int],
{
    let process_start = a.len();
    a.patch_rel32(je_process, process_start);
    a.patch_rel32(je_process2, process_start);
    // line[ebp] = 0
    a.emit(0x89);
    a.emit(0xE9);
    a.emit(0x81);
    a.emit(0xC1);
    a.emit_u32(LINE_BUF_ADDR);
    a.emit(0xC6);
    a.emit(0x01);
    a.emit(0x00);
    // empty line: back to the prompt
    a.emit(0x85);
    a.emit(0xED);
    a.emit(0x0F);
    a.emit(0x84);
    let je_empty = a.reserve_rel32();
    // "help"
    a.emit(0x83);
    a.emit(0xFD);
    a.emit(0x04);
    a.emit(0x0F);
    a.emit(0x85);
    let jne_ls = a.reserve_rel32();
    a.emit(0x81);
    a.emit(0x3D);
    a.emit_u32(LINE_BUF_ADDR);
    a.emit_u32(0x706C_6568);
    a.emit(0x0F);
    a.emit(0x85);
    let jne_ls2 = a.reserve_rel32();
    op_imm(a, 0xB8, 4);
    op_imm(a, 0xBB, 1);
    op_imm(a, 0xB9, HELP_MSG_ADDR);
    op_imm(a, 0xBA, HELP_MSG_LEN as u32);
    syscall_trap(a);
    a.emit(0xE9);
    a.emit_rel32(0);

    proof {
        assert(a.pending() =~= set![123int, 132int, 148int]);
    }
    (je_empty, jne_ls, jne_ls2)
}

/// The `ls` command up to the listing: the command check, opening `/` and
/// reading the directory into the buffer, skipped when nothing was listed.
#[verifier::rlimit(50)]
fn emit_ls_request(a: &mut Assembler, jne_ls: usize, jne_ls2: usize) -> (r: (usize, usize, usize))
    requires
        old(a).wf(),
        old(a).bytes().len() == 179,
        jne_ls == 132,
        jne_ls2 == 148,
        old(a).resolved() == seq![(104int, 27int), (80int, 108int), (88int, 108int), (175int, 0int)],
        old(a).pending() == set![123int, 132int, 148int],
    ensures
        final(a).wf(),
        final(a).bytes() == ls_request_bytes(old(a).bytes()),
        final(a).bytes().len() == 251,
        r == (184usize, 199usize, 245usize),
        final(a).resolved() == seq![(104int, 27int), (80int, 108int), (88int, 108int), (175int, 0int),
            (132int, 179int), (148int, 179int)],
        final(a).pending() == set![123int, 184int, 199int, 245int],
{
    let ls_start = a.len();
    a.patch_rel32(jne_ls, ls_start);
    a.patch_rel32(jne_ls2, ls_start);
    // "ls"
    a.emit(0x83);
    a.emit(0xFD);
    a.emit(0x02);
    a.emit(0x0F);
    a.emit(0x85);
    let jne_cat = a.reserve_rel32();
    a.emit(0x66);
    a.emit(0x81);
    a.emit(0x3D);
    a.emit_u32(LINE_BUF_ADDR);
    a.emit(0x6C);
    a.emit(0x73);
    a.emit(0x0F);
    a.emit(0x85);
    let jne_cat2 = a.reserve_rel32();
    // open "/"
    op_imm(a, 0xB8, 5);
    op_imm(a, 0xBB, LS_PATH_ADDR);
    op_imm(a, 0xB9, 1);
    syscall_trap(a);
    // readdir into the buffer
    a.emit(0x89);
    a.emit(0xC3);
    op_imm(a, 0xB8, 6);
    op_imm(a, 0xB9, BUF_ADDR);
    op_imm(a, 0xBA, 1000);
    syscall_trap(a);
    // nothing listed: print nothing
    a.emit(0x89);
    a.emit(0xC2);
    a.emit(0x85);
    a.emit(0xD2);
    a.emit(0x0F);
    a.emit(0x84);
    let jz_print_ls = a.reserve_rel32();
    // turn every NUL of the listing into a line feed
    a.emit(0x31);
    a.emit(0xC9);

    proof {
        assert(a.pending() =~= set![123int, 184int, 199int, 245int]);
    }
    (jne_cat, jne_cat2, jz_print_ls)
}

/// The rest of `ls`: turn the listing's NULs into line feeds, print it and a
/// line feed, and go back to the prompt.
#[verifier::rlimit(50)]
fn emit_ls_print(a: &mut Assembler, jz_print_ls: usize)
    requires
        old(a).wf(),
        old(a).bytes().len() == 251,
        jz_print_ls == 245,
        old(a).resolved() == seq![(104int, 27int), (80int, 108int), (88int, 108int), (175int, 0int),
            (132int, 179int), (148int, 179int)],
        old(a).pending() == set![123int, 184int, 199int, 245int],
    ensures
        final(a).wf(),
        final(a).bytes() == ls_print_bytes(old(a).bytes()),
        final(a).bytes().len() == 323,
        final(a).resolved() == seq![(104int, 27int), (80int, 108int), (88int, 108int), (175int, 0int),
            (132int, 179int), (148int, 179int), (245int, 272int), (319int, 0int)],
        final(a).pending() == set![123int, 184int, 199int],
{
    let replace_loop = a.len();
    a.emit(0x80);
    a.emit(0xB9);
    a.emit_u32(BUF_ADDR);
    a.emit(0x00);
    a.emit(0x75);
    a.emit(0x07);
    a.emit(0xC6);
    a.emit(0x81);
    a.emit_u32(BUF_ADDR);
    a.emit(0x0A);
    a.emit(0x41);
    a.emit(0x39);
    a.emit(0xD1);
    a.emit(0x72);
    let current = a.len() + 1;
    a.emit((replace_loop + 256 - current) as u8);

    let print_ls = a.len();
    a.patch_rel32(jz_print_ls, print_ls);
    op_imm(a, 0xB8, 4);
    op_imm(a, 0xBB, 1);
    op_imm(a, 0xB9, BUF_ADDR);
    syscall_trap(a);
    // then a line feed
    op_imm(a, 0xB8, 4);
    op_imm(a, 0xBB, 1);
    a.emit(0xC6);
    a.emit(0x05);
    a.emit_u32(BUF_ADDR);
    a.emit(0x0A);
    op_imm(a, 0xB9, BUF_ADDR);
    op_imm(a, 0xBA, 1);
    syscall_trap(a);
    a.emit(0xE9);
    a.emit_rel32(0);

    proof {
        assert(a.pending() =~= set![123int, 184int, 199int]);
    }
}

/// The `cat` command up to reading the file: the command check, opening the
/// file named after `cat ` and reading it into the buffer.
#[verifier::rlimit(50)]
fn emit_cat_read(a: &mut Assembler, jne_cat: usize, jne_cat2: usize) -> (r: (usize, usize))
    requires
        old(a).wf(),
        old(a).bytes().len() == 323,
        jne_cat == 184,
        jne_cat2 == 199,
        old(a).resolved() == seq![(104int, 27int), (80int, 108int), (88int, 108int), (175int, 0int),
            (132int, 179int), (148int, 179int), (245int, 272int), (319int, 0int)],
        old(a).pending() == set![123int, 184int, 199int],
    ensures
        final(a).wf(),
        final(a).bytes() == cat_read_bytes(old(a).bytes()),
        final(a).bytes().len() == 384,
        r == (328usize, 344usize),
        final(a).resolved() == seq![(104int, 27int), (80int, 108int), (88int, 108int), (175int, 0int),
            (132int, 179int), (148int, 179int), (245int, 272int), (319int, 0int), (184int, 323int), (199int, 323int)],
        final(a).pending() == set![123int, 328int, 344int],
{
    let cat_start = a.len();
    a.patch_rel32(jne_cat, cat_start);
    a.patch_rel32(jne_cat2, cat_start);
    // "cat <file>"
    a.emit(0x83);
    a.emit(0xFD);
    a.emit(0x04);
    a.emit(0x0F);
    a.emit(0x8E);
    let jle_invalid = a.reserve_rel32();
    a.emit(0x81);
    a.emit(0x3D);
    a.emit_u32(LINE_BUF_ADDR);
    a.emit_u32(0x2074_6163);
    a.emit(0x0F);
    a.emit(0x85);
    let jne_invalid = a.reserve_rel32();
    // open the file named after "cat "
    op_imm(a, 0xB8, 5);
    op_imm(a, 0xBB, LINE_BUF_ADDR + 4);
    a.emit(0x89);
    a.emit(0xE9);
    a.emit(0x83);
    a.emit(0xE9);
    a.emit(0x04);
    syscall_trap(a);
    // read it into the buffer
    a.emit(0x89);
    a.emit(0xC3);
    op_imm(a, 0xB8, 3);
    op_imm(a, 0xB9, BUF_ADDR);
    op_imm(a, 0xBA, 1000);
    syscall_trap(a);

    proof {
        assert(a.pending() =~= set![123int, 328int, 344int]);
    }
    (jle_invalid, jne_invalid)
}

/// The rest of `cat`: print what was read and a line feed; then the target of
/// every command that is not one, back to the prompt.
#[verifier::rlimit(50)]
fn emit_cat_print(a: &mut Assembler, je_empty: usize, jle_invalid: usize, jne_invalid: usize)
    requires
        old(a).wf(),
        old(a).bytes().len() == 384,
        je_empty == 123,
        jle_invalid == 328,
        jne_invalid == 344,
        old(a).resolved() == seq![(104int, 27int), (80int, 108int), (88int, 108int), (175int, 0int),
            (132int, 179int), (148int, 179int), (245int, 272int), (319int, 0int), (184int, 323int), (199int, 323int)],
        old(a).pending() == set![123int, 328int, 344int],
    ensures
        final(a).wf(),
        final(a).bytes() == cat_print_bytes(old(a).bytes()),
        final(a).bytes().len() == SHELL_CODE_LEN,
        final(a).resolved() == shell_jumps(),
{
    // write what was read
    a.emit(0x89);
    a.emit(0xC2);
    op_imm(a, 0xB8, 4);
    op_imm(a, 0xBB, 1);
    op_imm(a, 0xB9, BUF_ADDR);
    syscall_trap(a);
    // then a line feed
    op_imm(a, 0xB8, 4);
    op_imm(a, 0xBB, 1);
    a.emit(0xC6);
    a.emit(0x05);
    a.emit_u32(BUF_ADDR);
    a.emit(0x0A);
    op_imm(a, 0xB9, BUF_ADDR);
    op_imm(a, 0xBA, 1);
    syscall_trap(a);

    let invalid_start = a.len();
    a.patch_rel32(jle_invalid, invalid_start);
    a.patch_rel32(jne_invalid, invalid_start);
    a.patch_rel32(je_empty, invalid_start);
    a.emit(0xE9);
    a.emit_rel32(0);
}

/// The shell program, to be loaded at `USER_CODE_BASE`.  Every rel32 jump in
/// it lands on its label.
pub fn shell_code() -> (code: Vec<u8>)
    ensures
        code@ == shell_listing(),
        code@.len() == SHELL_CODE_LEN,
        forall|k: int| 0 <= k < shell_jumps().len() ==> jumps_to(code@, #[trigger] shell_jumps()[k].0, shell_jumps()[k].1),
{
    let mut a = Assembler::new();
    let (je_process, je_process2) = emit_read_line(&mut a);
    let (je_empty, jne_ls, jne_ls2) = emit_help(&mut a, je_process, je_process2);
    let (jne_cat, jne_cat2, jz_print_ls) = emit_ls_request(&mut a, jne_ls, jne_ls2);
    emit_ls_print(&mut a, jz_print_ls);
    let (jle_invalid, jne_invalid) = emit_cat_read(&mut a, jne_cat, jne_cat2);
    emit_cat_print(&mut a, je_empty, jle_invalid, jne_invalid);
    proof {
        a.lemma_resolved();
    }
    a.finish()
}

/// The prompt the shell prints: `OMU-OS> `.
pub fn shell_prompt() -> (r: Vec<u8>)
    ensures
        r@ == seq![0x4Fu8, 0x4D, 0x55, 0x2D, 0x4F, 0x53, 0x3E, 0x20],
{
    vec![0x4Fu8, 0x4D, 0x55, 0x2D, 0x4F, 0x53, 0x3E, 0x20]
}

/// The text `help` prints: `Supported commands: help, ls, cat <file>` and a
/// line feed.
pub fn shell_help_msg() -> (r: Vec<u8>)
    ensures
        r@.len() == HELP_MSG_LEN,
        r@ == seq![
            83u8, 117, 112, 112, 111, 114, 116, 101, 100, 32, 99, 111, 109, 109, 97, 110, 100, 115, 58, 32,
            104, 101, 108, 112, 44, 32, 108, 115, 44, 32, 99, 97, 116, 32, 60, 102, 105, 108, 101, 62, 10,
        ],
{
    vec![
        83u8, 117, 112, 112, 111, 114, 116, 101, 100, 32, 99, 111, 109, 109, 97, 110, 100, 115, 58, 32,
        104, 101, 108, 112, 44, 32, 108, 115, 44, 32, 99, 97, 116, 32, 60, 102, 105, 108, 101, 62, 10,
    ]
}

/// The path `ls` lists: `/`.
pub fn shell_ls_path() -> (r: Vec<u8>)
    ensures
        r@ == seq![0x2Fu8],
{
    vec![0x2Fu8]
}

proof fn lemma_le_bytes(v: u32)
    ensures
        (v as u8) + 256 * ((v >> 8u32) as u8) + 65536 * ((v >> 16u32) as u8) + 16777216 * ((v >> 24u32) as u8) == v,
{
    let b0 = v as u8;
    let b1 = (v >> 8u32) as u8;
    let b2 = (v >> 16u32) as u8;
    let b3 = (v >> 24u32) as u8;
    assert(b0 as u32 + 256u32 * b1 as u32 + 65536u32 * b2 as u32 + 16777216u32 * b3 as u32 == v) by (bit_vector)
        requires
            b0 == v as u8,
            b1 == (v >> 8u32) as u8,
            b2 == (v >> 16u32) as u8,
            b3 == (v >> 24u32) as u8,
    ;
}

} // verus!
