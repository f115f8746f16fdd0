//! The ustar header fields the initial ramdisk reader uses.
use vstd::prelude::*;
use vstd::string::StringSliceAdditionalSpecFns;
use vstd::utf8::{valid_utf8, decode_utf8};
use crate::fs::types::str_from_utf8;

verus! {

/// Bytes of a header that the reader looks at: name, mode, owner, group,
/// size, time, checksum and type flag.
pub const TAR_HEADER_LEN: usize = 157;

/// Size of a tar block.
pub const TAR_BLOCK: usize = 512;

/// Offset of the size field in a header.
pub const SIZE_OFFSET: usize = 124;

/// Offset of the type flag in a header.
pub const TYPEFLAG_OFFSET: usize = 156;

/// Type flag of a directory entry (`'5'`).
pub const DIRECTORY_FLAG: u8 = 0x35;

/// The leading fields of a ustar header.
pub struct TarHeader {
    pub name: [u8; 100],
    pub mode: [u8; 8],
    pub uid: [u8; 8],
    pub gid: [u8; 8],
    pub size: [u8; 12],
    pub mtime: [u8; 12],
    pub chksum: [u8; 8],
    pub typeflag: u8,
}

/// `b` is an ASCII octal digit.
pub open spec fn is_octal_digit(b: u8) -> bool {
    0x30 <= b <= 0x37
}

/// Value of the octal digits of `b`, read left to right, skipping every
/// other byte.
pub open spec fn octal_digits_value(b: Seq<u8>) -> int
    decreases b.len(),
{
    if b.len() == 0 {
        0
    } else {
        let v = octal_digits_value(b.drop_last());
        if is_octal_digit(b.last()) {
            v * 8 + (b.last() - 0x30)
        } else {
            v
        }
    }
}

/// Length of the name: up to its first NUL, at most the whole field.
pub open spec fn name_len(name: Seq<u8>) -> int {
    if exists|i: int| 0 <= i < name.len() && name[i] == 0 && forall|j: int| 0 <= j < i ==> name[j] != 0 {
        choose|i: int| 0 <= i < name.len() && name[i] == 0 && forall|j: int| 0 <= j < i ==> name[j] != 0
    } else {
        name.len() as int
    }
}

/// The name as text: its bytes decoded as UTF-8, or empty when they are not
/// valid UTF-8.
pub open spec fn name_text(name: Seq<u8>) -> Seq<char> {
    let b = name.take(name_len(name));
    if valid_utf8(b) {
        decode_utf8(b)
    } else {
        Seq::empty()
    }
}

/// `8` to the power `n`.
pub open spec fn pow8(n: nat) -> int
    decreases n,
{
    if n == 0 { 1 } else { 8 * pow8((n - 1) as nat) }
}

proof fn lemma_pow8_mono(m: nat, n: nat)
    requires
        m <= n,
    ensures
        1 <= pow8(m) <= pow8(n),
    decreases n,
{
    if n > m {
        lemma_pow8_mono(m, (n - 1) as nat);
    } else if n > 0 {
        lemma_pow8_mono(0, (n - 1) as nat);
    }
}

proof fn lemma_octal_bound(b: Seq<u8>)
    ensures
        0 <= octal_digits_value(b) < pow8(b.len()),
    decreases b.len(),
{
    if b.len() > 0 {
        lemma_octal_bound(b.drop_last());
        let v = octal_digits_value(b.drop_last());
        let p = pow8((b.len() - 1) as nat);
        assert(v * 8 + 7 < 8 * p) by (nonlinear_arith)
            requires v < p;
    }
}

impl TarHeader {
    /// The size field as the header's bytes encode it.
    pub open spec fn spec_size_value(&self) -> int {
        octal_digits_value(self.size@.take(11))
    }

    /// Reads the header fields from the first `TAR_HEADER_LEN` bytes of `b`.
    pub fn from_bytes(b: &[u8]) -> (h: TarHeader)
        requires
            b@.len() >= TAR_HEADER_LEN,
        ensures
            h.name@ == b@.subrange(0, 100),
            h.size@ == b@.subrange(SIZE_OFFSET as int, SIZE_OFFSET + 12),
            h.typeflag == b@[TYPEFLAG_OFFSET as int],
    {
        let mut h = TarHeader {
            name: [0u8; 100],
            mode: [0u8; 8],
            uid: [0u8; 8],
            gid: [0u8; 8],
            size: [0u8; 12],
            mtime: [0u8; 12],
            chksum: [0u8; 8],
            typeflag: b[TYPEFLAG_OFFSET],
        };
        let mut i: usize = 0;
        while i < 100
            invariant
                i <= 100,
                b@.len() >= TAR_HEADER_LEN,
                h.typeflag == b@[TYPEFLAG_OFFSET as int],
                forall|j: int| 0 <= j < i ==> h.name@[j] == b@[j],
            decreases 100 - i,
        {
            h.name[i] = b[i];
            i = i + 1;
        }
        let mut i: usize = 0;
        while i < 12
            invariant
                i <= 12,
                b@.len() >= TAR_HEADER_LEN,
                h.typeflag == b@[TYPEFLAG_OFFSET as int],
                h.name@ =~= b@.subrange(0, 100),
                forall|j: int| 0 <= j < i ==> h.size@[j] == b@[SIZE_OFFSET + j],
            decreases 12 - i,
        {
            h.size[i] = b[SIZE_OFFSET + i];
            i = i + 1;
        }
        proof {
            assert(h.size@ =~= b@.subrange(SIZE_OFFSET as int, SIZE_OFFSET + 12));
        }
        let mut i: usize = 0;
        while i < 8
            invariant
                i <= 8,
                b@.len() >= TAR_HEADER_LEN,
                h.typeflag == b@[TYPEFLAG_OFFSET as int],
                h.name@ == b@.subrange(0, 100),
                h.size@ == b@.subrange(SIZE_OFFSET as int, SIZE_OFFSET + 12),
            decreases 8 - i,
        {
            h.mode[i] = b[100 + i];
            h.uid[i] = b[108 + i];
            h.gid[i] = b[116 + i];
            h.chksum[i] = b[148 + i];
            i = i + 1;
        }
        let mut i: usize = 0;
        while i < 12
            invariant
                i <= 12,
                b@.len() >= TAR_HEADER_LEN,
                h.typeflag == b@[TYPEFLAG_OFFSET as int],
                h.name@ == b@.subrange(0, 100),
                h.size@ == b@.subrange(SIZE_OFFSET as int, SIZE_OFFSET + 12),
            decreases 12 - i,
        {
            h.mtime[i] = b[136 + i];
            i = i + 1;
        }
        h
    }

    /// The size of the entry's data: the octal digits among the first eleven
    /// bytes of the size field, other bytes skipped.
    pub fn size(&self) -> (r: usize)
        requires
            self.spec_size_value() <= usize::MAX,
        ensures
            r == self.spec_size_value(),
    {
        let v = self.size_value();
        v as usize
    }

    /// The size field's value, which always fits in 64 bits.
    pub fn size_value(&self) -> (r: u64)
        ensures
            r == self.spec_size_value(),
            r < 0x2_0000_0000,
    {
        let mut size: u64 = 0;
        let mut i: usize = 0;
        while i < 11
            invariant
                i <= 11,
                size == octal_digits_value(self.size@.take(i as int)),
            decreases 11 - i,
        {
            proof {
                lemma_octal_bound(self.size@.take(i as int));
                lemma_pow8_mono(i as nat, 10);
                assert(pow8(10) == 1073741824) by {
                    reveal_with_fuel(pow8, 11);
                }
                assert(self.size@.take(i + 1).drop_last() =~= self.size@.take(i as int));
            }
            let b = self.size[i];
            if b >= 0x30 && b <= 0x37 {
                size = size * 8 + (b - 0x30) as u64;
            }
            i = i + 1;
        }
        proof {
            lemma_octal_bound(self.size@.take(11));
            assert(pow8(11) == 0x2_0000_0000) by {
                reveal_with_fuel(pow8, 12);
            }
        }
        size
    }

    /// The entry's name: the bytes before the first NUL, as UTF-8 text, or
    /// the empty string when they are not valid UTF-8.
    pub fn name(&self) -> (r: &str)
        ensures
            r@ == name_text(self.name@),
    {
        let mut len: usize = 0;
        while len < 100 && self.name[len] != 0
            invariant
                len <= 100,
                forall|j: int| 0 <= j < len ==> self.name@[j] != 0,
            decreases 100 - len,
        {
            len = len + 1;
        }
        proof {
            if len < 100 {
                assert(self.name@[len as int] == 0);
            }
            if exists|i: int| 0 <= i < 100 && self.name@[i] == 0 && forall|j: int| 0 <= j < i ==> self.name@[j] != 0 {
                let i = choose|i: int| 0 <= i < 100 && self.name@[i] == 0 && forall|j: int| 0 <= j < i ==> self.name@[j] != 0;
                if i < len {
                    assert(self.name@[i] != 0);
                } else if i > len {
                    assert(self.name@[len as int] == 0);
                }
            }
            assert(name_len(self.name@) == len);
        }
        let all: &[u8] = &self.name;
        let bytes = vstd::slice::slice_subrange(all, 0, len);
        proof {
            assert(bytes@ =~= self.name@.take(len as int));
        }
        match str_from_utf8(bytes) {
            Some(s) => {
                proof {
                    vstd::utf8::decode_utf8_encode_utf8(bytes@);
                    vstd::utf8::encode_utf8_decode_utf8(s@);
                }
                s
            },
            None => {
                proof {
                    reveal_strlit("");
                }
                ""
            },
        }
    }
}

} // verus!
