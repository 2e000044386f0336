//! Layout of the Linux `sg_io_hdr_t` structure of `<scsi/sg.h>`, computed
//! from its field list by the C layout rules for the host's pointer width.
//!
//! The structure itself, with its pointers, is never built here.
use vstd::prelude::*;

verus! {

#[derive(Debug, Clone, Copy, PartialEq, Eq, Structural)]
pub struct SgIoAbiLayout {
    pub size: usize,
    pub alignment: usize,
}

/// The C field kinds that occur in `sg_io_hdr_t`.
#[derive(Clone, Copy, PartialEq, Eq, Structural)]
pub enum CField {
    Int,
    UChar,
    UShort,
    UInt,
    Pointer,
}

/// Size of a field kind, which is also its alignment on Linux targets.
pub open spec fn field_size(field: CField, pointer_bytes: nat) -> nat {
    match field {
        CField::Int => 4,
        CField::UChar => 1,
        CField::UShort => 2,
        CField::UInt => 4,
        CField::Pointer => pointer_bytes,
    }
}

/// Kind of field `i` of `sg_io_hdr_t`, in declaration order.
pub open spec fn sg_io_hdr_field(i: int) -> CField {
    if i == 0 || i == 1 || i == 11 || i == 19 {
        CField::Int
    } else if i == 2 || i == 3 || i == 13 || i == 14 || i == 15 || i == 16 {
        CField::UChar
    } else if i == 4 || i == 17 || i == 18 {
        CField::UShort
    } else if i == 5 || i == 9 || i == 10 || i == 20 || i == 21 {
        CField::UInt
    } else {
        CField::Pointer
    }
}

/// The fields of `sg_io_hdr_t`, from `interface_id` to `info`.
pub open spec fn sg_io_hdr_fields() -> Seq<CField> {
    Seq::new(22, |i: int| sg_io_hdr_field(i))
}

/// `offset` rounded up to a multiple of `align`.
pub open spec fn align_up(offset: nat, align: nat) -> nat {
    if align == 0 || offset % align == 0 {
        offset
    } else {
        (offset + (align - offset % align)) as nat
    }
}

/// End of the first `n` of `fields`, each placed at the next multiple of
/// its alignment.
pub open spec fn fields_end(fields: Seq<CField>, n: nat, pointer_bytes: nat) -> nat
    decreases n,
{
    if n == 0 {
        0
    } else {
        align_up(
            fields_end(fields, (n - 1) as nat, pointer_bytes),
            field_size(fields[n - 1], pointer_bytes),
        ) + field_size(fields[n - 1], pointer_bytes)
    }
}

/// The largest alignment among the first `n` of `fields`, at least 1.
pub open spec fn fields_align(fields: Seq<CField>, n: nat, pointer_bytes: nat) -> nat
    decreases n,
{
    if n == 0 {
        1
    } else {
        let rest = fields_align(fields, (n - 1) as nat, pointer_bytes);
        let a = field_size(fields[n - 1], pointer_bytes);
        if a > rest {
            a
        } else {
            rest
        }
    }
}

/// The C layout of a structure with these fields: its size is the end of
/// the last field rounded up to the structure's alignment.
pub open spec fn c_layout(fields: Seq<CField>, pointer_bytes: nat) -> (nat, nat) {
    (
        align_up(
            fields_end(fields, fields.len(), pointer_bytes),
            fields_align(fields, fields.len(), pointer_bytes),
        ),
        fields_align(fields, fields.len(), pointer_bytes),
    )
}

fn field_table() -> (t: [CField; 22])
    ensures
        t@ == sg_io_hdr_fields(),
{
    let t = [
        CField::Int,
        CField::Int,
        CField::UChar,
        CField::UChar,
        CField::UShort,
        CField::UInt,
        CField::Pointer,
        CField::Pointer,
        CField::Pointer,
        CField::UInt,
        CField::UInt,
        CField::Int,
        CField::Pointer,
        CField::UChar,
        CField::UChar,
        CField::UChar,
        CField::UChar,
        CField::UShort,
        CField::UShort,
        CField::Int,
        CField::UInt,
        CField::UInt,
    ];
    assert(t@ =~= sg_io_hdr_fields());
    t
}

fn align_up_exec(offset: usize, align: usize) -> (r: usize)
    requires
        1 <= align <= 8,
        offset <= 1000,
    ensures
        r == align_up(offset as nat, align as nat),
        r <= offset + 8,
{
    let rem = offset % align;
    assert(rem < align) by (nonlinear_arith)
        requires
            rem == offset % align,
            align >= 1,
    ;
    if rem == 0 {
        offset
    } else {
        offset + (align - rem)
    }
}

/// Size and alignment of `sg_io_hdr_t` on this host.
pub fn sg_io_abi_layout() -> (layout: SgIoAbiLayout)
    ensures
        (layout.size as nat, layout.alignment as nat) == c_layout(
            sg_io_hdr_fields(),
            (usize::BITS / 8) as nat,
        ),
        usize::BITS == 64 ==> layout == (SgIoAbiLayout { size: 88, alignment: 8 }),
        usize::BITS == 32 ==> layout == (SgIoAbiLayout { size: 64, alignment: 4 }),
{
    proof {
        lemma_sg_io_layout_matches_abi();
    }
    let pointer_bytes: usize = (usize::BITS / 8) as usize;
    let fields = field_table();
    let mut end: usize = 0;
    let mut alignment: usize = 1;
    let mut i: usize = 0;
    while i < 22
        invariant
            pointer_bytes == usize::BITS / 8,
            pointer_bytes == 4 || pointer_bytes == 8,
            fields@ == sg_io_hdr_fields(),
            i <= 22,
            end <= 16 * i,
            1 <= alignment <= 8,
            end == fields_end(fields@, i as nat, pointer_bytes as nat),
            alignment == fields_align(fields@, i as nat, pointer_bytes as nat),
        decreases 22 - i,
    {
        let size: usize = match fields[i] {
            CField::Int => 4,
            CField::UChar => 1,
            CField::UShort => 2,
            CField::UInt => 4,
            CField::Pointer => pointer_bytes,
        };
        end = align_up_exec(end, size) + size;
        if size > alignment {
            alignment = size;
        }
        i = i + 1;
    }
    SgIoAbiLayout { size: align_up_exec(end, alignment), alignment }
}

/// The layout the Linux ABI documents for `sg_io_hdr_t`: 88 bytes aligned
/// to 8 with 64-bit pointers, 64 bytes aligned to 4 with 32-bit pointers.
pub proof fn lemma_sg_io_layout_matches_abi()
    ensures
        c_layout(sg_io_hdr_fields(), 8) == (88nat, 8nat),
        c_layout(sg_io_hdr_fields(), 4) == (64nat, 4nat),
{
    let f = sg_io_hdr_fields();
    assert(fields_end(f, 0, 8) == 0 && fields_end(f, 0, 4) == 0);
    assert(fields_align(f, 0, 8) == 1 && fields_align(f, 0, 4) == 1);
    assert(align_up(0, 4) == 0);
    assert(fields_end(f, 1, 8) == 4);
    assert(fields_align(f, 1, 8) == 4);
    assert(align_up(4, 4) == 4);
    assert(fields_end(f, 2, 8) == 8);
    assert(fields_align(f, 2, 8) == 4);
    assert(align_up(8, 1) == 8);
    assert(fields_end(f, 3, 8) == 9);
    assert(fields_align(f, 3, 8) == 4);
    assert(align_up(9, 1) == 9);
    assert(fields_end(f, 4, 8) == 10);
    assert(fields_align(f, 4, 8) == 4);
    assert(align_up(10, 2) == 10);
    assert(fields_end(f, 5, 8) == 12);
    assert(fields_align(f, 5, 8) == 4);
    assert(align_up(12, 4) == 12);
    assert(fields_end(f, 6, 8) == 16);
    assert(fields_align(f, 6, 8) == 4);
    assert(align_up(16, 8) == 16);
    assert(fields_end(f, 7, 8) == 24);
    assert(fields_align(f, 7, 8) == 8);
    assert(align_up(24, 8) == 24);
    assert(fields_end(f, 8, 8) == 32);
    assert(fields_align(f, 8, 8) == 8);
    assert(align_up(32, 8) == 32);
    assert(fields_end(f, 9, 8) == 40);
    assert(fields_align(f, 9, 8) == 8);
    assert(align_up(40, 4) == 40);
    assert(fields_end(f, 10, 8) == 44);
    assert(fields_align(f, 10, 8) == 8);
    assert(align_up(44, 4) == 44);
    assert(fields_end(f, 11, 8) == 48);
    assert(fields_align(f, 11, 8) == 8);
    assert(align_up(48, 4) == 48);
    assert(fields_end(f, 12, 8) == 52);
    assert(fields_align(f, 12, 8) == 8);
    assert(align_up(52, 8) == 56);
    assert(fields_end(f, 13, 8) == 64);
    assert(fields_align(f, 13, 8) == 8);
    assert(align_up(64, 1) == 64);
    assert(fields_end(f, 14, 8) == 65);
    assert(fields_align(f, 14, 8) == 8);
    assert(align_up(65, 1) == 65);
    assert(fields_end(f, 15, 8) == 66);
    assert(fields_align(f, 15, 8) == 8);
    assert(align_up(66, 1) == 66);
    assert(fields_end(f, 16, 8) == 67);
    assert(fields_align(f, 16, 8) == 8);
    assert(align_up(67, 1) == 67);
    assert(fields_end(f, 17, 8) == 68);
    assert(fields_align(f, 17, 8) == 8);
    assert(align_up(68, 2) == 68);
    assert(fields_end(f, 18, 8) == 70);
    assert(fields_align(f, 18, 8) == 8);
    assert(align_up(70, 2) == 70);
    assert(fields_end(f, 19, 8) == 72);
    assert(fields_align(f, 19, 8) == 8);
    assert(align_up(72, 4) == 72);
    assert(fields_end(f, 20, 8) == 76);
    assert(fields_align(f, 20, 8) == 8);
    assert(align_up(76, 4) == 76);
    assert(fields_end(f, 21, 8) == 80);
    assert(fields_align(f, 21, 8) == 8);
    assert(align_up(80, 4) == 80);
    assert(fields_end(f, 22, 8) == 84);
    assert(fields_align(f, 22, 8) == 8);
    assert(align_up(84, 8) == 88);
    assert(align_up(0, 4) == 0);
    assert(fields_end(f, 1, 4) == 4);
    assert(fields_align(f, 1, 4) == 4);
    assert(align_up(4, 4) == 4);
    assert(fields_end(f, 2, 4) == 8);
    assert(fields_align(f, 2, 4) == 4);
    assert(align_up(8, 1) == 8);
    assert(fields_end(f, 3, 4) == 9);
    assert(fields_align(f, 3, 4) == 4);
    assert(align_up(9, 1) == 9);
    assert(fields_end(f, 4, 4) == 10);
    assert(fields_align(f, 4, 4) == 4);
    assert(align_up(10, 2) == 10);
    assert(fields_end(f, 5, 4) == 12);
    assert(fields_align(f, 5, 4) == 4);
    assert(align_up(12, 4) == 12);
    assert(fields_end(f, 6, 4) == 16);
    assert(fields_align(f, 6, 4) == 4);
    assert(align_up(16, 4) == 16);
    assert(fields_end(f, 7, 4) == 20);
    assert(fields_align(f, 7, 4) == 4);
    assert(align_up(20, 4) == 20);
    assert(fields_end(f, 8, 4) == 24);
    assert(fields_align(f, 8, 4) == 4);
    assert(align_up(24, 4) == 24);
    assert(fields_end(f, 9, 4) == 28);
    assert(fields_align(f, 9, 4) == 4);
    assert(align_up(28, 4) == 28);
    assert(fields_end(f, 10, 4) == 32);
    assert(fields_align(f, 10, 4) == 4);
    assert(align_up(32, 4) == 32);
    assert(fields_end(f, 11, 4) == 36);
    assert(fields_align(f, 11, 4) == 4);
    assert(align_up(36, 4) == 36);
    assert(fields_end(f, 12, 4) == 40);
    assert(fields_align(f, 12, 4) == 4);
    assert(align_up(40, 4) == 40);
    assert(fields_end(f, 13, 4) == 44);
    assert(fields_align(f, 13, 4) == 4);
    assert(align_up(44, 1) == 44);
    assert(fields_end(f, 14, 4) == 45);
    assert(fields_align(f, 14, 4) == 4);
    assert(align_up(45, 1) == 45);
    assert(fields_end(f, 15, 4) == 46);
    assert(fields_align(f, 15, 4) == 4);
    assert(align_up(46, 1) == 46);
    assert(fields_end(f, 16, 4) == 47);
    assert(fields_align(f, 16, 4) == 4);
    assert(align_up(47, 1) == 47);
    assert(fields_end(f, 17, 4) == 48);
    assert(fields_align(f, 17, 4) == 4);
    assert(align_up(48, 2) == 48);
    assert(fields_end(f, 18, 4) == 50);
    assert(fields_align(f, 18, 4) == 4);
    assert(align_up(50, 2) == 50);
    assert(fields_end(f, 19, 4) == 52);
    assert(fields_align(f, 19, 4) == 4);
    assert(align_up(52, 4) == 52);
    assert(fields_end(f, 20, 4) == 56);
    assert(fields_align(f, 20, 4) == 4);
    assert(align_up(56, 4) == 56);
    assert(fields_end(f, 21, 4) == 60);
    assert(fields_align(f, 21, 4) == 4);
    assert(align_up(60, 4) == 60);
    assert(fields_end(f, 22, 4) == 64);
    assert(fields_align(f, 22, 4) == 4);
    assert(align_up(64, 4) == 64);
    assert(c_layout(sg_io_hdr_fields(), 8) == (88nat, 8nat));
    assert(c_layout(sg_io_hdr_fields(), 4) == (64nat, 4nat));
}


/// What one SG_IO transfer returned, as read back from `sg_io_hdr_t`.
#[derive(Debug, Clone, PartialEq, Eq)]
pub struct SgIoCompletion {
    pub data: Vec<u8>,
    pub sense: Vec<u8>,
    pub scsi_status: u8,
    pub host_status: u16,
    pub driver_status: u16,
    pub residual: i32,
    pub duration_ms: u32,
    pub info: u32,
}

} // verus!
