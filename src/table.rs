//! Fixed lookup tables: which rows each table tag loads.

use vstd::arithmetic::power2::{
    lemma2_to64, lemma2_to64_rest, lemma_pow2_adds, lemma_pow2_strictly_increases,
    lemma_pow2_unfold, pow2,
};
use vstd::prelude::*;

verus! {

/// One row of the fixed table: the tag and three values.
#[derive(Clone, Copy, Debug, PartialEq, Eq, Structural)]
pub struct FixedRow(pub u128, pub u128, pub u128, pub u128);

/// The all-zero row that stands at offset 0 and disables a lookup.
pub open spec fn zero_row() -> FixedRow {
    FixedRow(0, 0, 0, 0)
}

/// The lookup tables that can be loaded into the fixed columns.
#[derive(Clone, Copy, Debug, PartialEq, Eq, Structural)]
pub enum FixedTableTag {
    Zero,
    Range5,
    Range16,
    Range32,
    Range64,
    Range256,
    Range512,
    Range1024,
    SignByte,
    BitwiseAnd,
    BitwiseOr,
    BitwiseXor,
    ResponsibleOpcode,
    Pow2,
}

/// The value written in the tag column for `tag`.
pub open spec fn tag_value(tag: FixedTableTag) -> u128 {
    match tag {
        FixedTableTag::Zero => 0,
        FixedTableTag::Range5 => 1,
        FixedTableTag::Range16 => 2,
        FixedTableTag::Range32 => 3,
        FixedTableTag::Range64 => 4,
        FixedTableTag::Range256 => 5,
        FixedTableTag::Range512 => 6,
        FixedTableTag::Range1024 => 7,
        FixedTableTag::SignByte => 8,
        FixedTableTag::BitwiseAnd => 9,
        FixedTableTag::BitwiseOr => 10,
        FixedTableTag::BitwiseXor => 11,
        FixedTableTag::ResponsibleOpcode => 12,
        FixedTableTag::Pow2 => 13,
    }
}

/// Number of rows of the table of `tag`, given `n_pairs` (state, opcode) pairs.
pub open spec fn table_len(tag: FixedTableTag, n_pairs: nat) -> nat {
    match tag {
        FixedTableTag::Zero => 1,
        FixedTableTag::Range5 => 5,
        FixedTableTag::Range16 => 16,
        FixedTableTag::Range32 => 32,
        FixedTableTag::Range64 => 64,
        FixedTableTag::Range256 => 256,
        FixedTableTag::Range512 => 512,
        FixedTableTag::Range1024 => 1024,
        FixedTableTag::SignByte => 256,
        FixedTableTag::BitwiseAnd => 65536,
        FixedTableTag::BitwiseOr => 65536,
        FixedTableTag::BitwiseXor => 65536,
        FixedTableTag::ResponsibleOpcode => n_pairs,
        FixedTableTag::Pow2 => 256,
    }
}

/// Row `i` of the table of `tag`; `pairs` are the (state, opcode) pairs.
pub open spec fn table_row(tag: FixedTableTag, pairs: Seq<(u64, u64)>, i: int) -> FixedRow {
    let t = tag_value(tag);
    let lhs = (i / 256) as u8;
    let rhs = (i % 256) as u8;
    match tag {
        FixedTableTag::Zero => FixedRow(t, 0, 0, 0),
        FixedTableTag::SignByte => FixedRow(t, i as u128, if i >= 128 { 255 } else { 0 }, 0),
        FixedTableTag::BitwiseAnd => FixedRow(t, lhs as u128, rhs as u128, (lhs & rhs) as u128),
        FixedTableTag::BitwiseOr => FixedRow(t, lhs as u128, rhs as u128, (lhs | rhs) as u128),
        FixedTableTag::BitwiseXor => FixedRow(t, lhs as u128, rhs as u128, (lhs ^ rhs) as u128),
        FixedTableTag::ResponsibleOpcode => FixedRow(
            t,
            pairs[i].0 as u128,
            pairs[i].1 as u128,
            0,
        ),
        FixedTableTag::Pow2 => if i < 128 {
            FixedRow(t, i as u128, pow2(i as nat) as u128, 0)
        } else {
            FixedRow(t, i as u128, 0, pow2((i - 128) as nat) as u128)
        },
        _ => FixedRow(t, i as u128, 0, 0),
    }
}

/// All rows of the table of `tag`, in order.
pub open spec fn table_rows(tag: FixedTableTag, pairs: Seq<(u64, u64)>) -> Seq<FixedRow> {
    Seq::new(table_len(tag, pairs.len()), |i: int| table_row(tag, pairs, i))
}

/// The rows of the tables of `tags`, one table after another.
pub open spec fn tables_rows(tags: Seq<FixedTableTag>, pairs: Seq<(u64, u64)>) -> Seq<FixedRow>
    decreases tags.len(),
{
    if tags.len() == 0 {
        seq![]
    } else {
        tables_rows(tags.drop_last(), pairs) + table_rows(tags.last(), pairs)
    }
}

/// Sum of the table lengths of `tags`.
pub open spec fn tables_len(tags: Seq<FixedTableTag>, n_pairs: nat) -> nat
    decreases tags.len(),
{
    if tags.len() == 0 {
        0
    } else {
        tables_len(tags.drop_last(), n_pairs) + table_len(tags.last(), n_pairs)
    }
}

/// The rows of a list of tables number the sum of their lengths.
pub proof fn lemma_tables_rows_len(tags: Seq<FixedTableTag>, pairs: Seq<(u64, u64)>)
    ensures
        tables_rows(tags, pairs).len() == tables_len(tags, pairs.len()),
    decreases tags.len(),
{
    if tags.len() > 0 {
        lemma_tables_rows_len(tags.drop_last(), pairs);
    }
}

/// `2^e` for `e < 128`.
fn pow2_u128(e: u128) -> (r: u128)
    requires
        e < 128,
    ensures
        r == pow2(e as nat),
{
    proof {
        lemma2_to64();
        lemma2_to64_rest();
        lemma_pow2_adds(64, 63);
    }
    let mut p: u128 = 1;
    let mut i: u128 = 0;
    while i < e
        invariant
            i <= e < 128,
            p == pow2(i as nat),
            pow2(127) == 0x8000_0000_0000_0000_0000_0000_0000_0000,
        decreases e - i,
    {
        proof {
            lemma_pow2_unfold((i + 1) as nat);
            if i + 1 < 127 {
                lemma_pow2_strictly_increases((i + 1) as nat, 127);
            }
        }
        p = p * 2;
        i = i + 1;
    }
    p
}

impl FixedTableTag {
    /// Every tag, in declaration order.
    pub fn all() -> (r: Vec<FixedTableTag>)
        ensures
            r@ == seq![
                FixedTableTag::Zero,
                FixedTableTag::Range5,
                FixedTableTag::Range16,
                FixedTableTag::Range32,
                FixedTableTag::Range64,
                FixedTableTag::Range256,
                FixedTableTag::Range512,
                FixedTableTag::Range1024,
                FixedTableTag::SignByte,
                FixedTableTag::BitwiseAnd,
                FixedTableTag::BitwiseOr,
                FixedTableTag::BitwiseXor,
                FixedTableTag::ResponsibleOpcode,
                FixedTableTag::Pow2,
            ],
    {
        let mut r = FixedTableTag::without_bitwise();
        r.insert(9, FixedTableTag::BitwiseAnd);
        r.insert(10, FixedTableTag::BitwiseOr);
        r.insert(11, FixedTableTag::BitwiseXor);
        proof {
            assert(r@ =~= seq![
                FixedTableTag::Zero,
                FixedTableTag::Range5,
                FixedTableTag::Range16,
                FixedTableTag::Range32,
                FixedTableTag::Range64,
                FixedTableTag::Range256,
                FixedTableTag::Range512,
                FixedTableTag::Range1024,
                FixedTableTag::SignByte,
                FixedTableTag::BitwiseAnd,
                FixedTableTag::BitwiseOr,
                FixedTableTag::BitwiseXor,
                FixedTableTag::ResponsibleOpcode,
                FixedTableTag::Pow2,
            ]);
        }
        r
    }

    /// Every tag but the three bitwise tables, whose 65536 rows each make
    /// a circuit large; in declaration order.
    pub fn without_bitwise() -> (r: Vec<FixedTableTag>)
        ensures
            r@ == seq![
                FixedTableTag::Zero,
                FixedTableTag::Range5,
                FixedTableTag::Range16,
                FixedTableTag::Range32,
                FixedTableTag::Range64,
                FixedTableTag::Range256,
                FixedTableTag::Range512,
                FixedTableTag::Range1024,
                FixedTableTag::SignByte,
                FixedTableTag::ResponsibleOpcode,
                FixedTableTag::Pow2,
            ],
    {
        let r = vec![
            FixedTableTag::Zero,
            FixedTableTag::Range5,
            FixedTableTag::Range16,
            FixedTableTag::Range32,
            FixedTableTag::Range64,
            FixedTableTag::Range256,
            FixedTableTag::Range512,
            FixedTableTag::Range1024,
            FixedTableTag::SignByte,
            FixedTableTag::ResponsibleOpcode,
            FixedTableTag::Pow2,
        ];
        proof {
            assert(r@ =~= seq![
                FixedTableTag::Zero,
                FixedTableTag::Range5,
                FixedTableTag::Range16,
                FixedTableTag::Range32,
                FixedTableTag::Range64,
                FixedTableTag::Range256,
                FixedTableTag::Range512,
                FixedTableTag::Range1024,
                FixedTableTag::SignByte,
                FixedTableTag::ResponsibleOpcode,
                FixedTableTag::Pow2,
            ]);
        }
        r
    }

    /// The value written in the tag column.
    pub fn value(&self) -> (r: u128)
        ensures
            r == tag_value(*self),
    {
        match self {
            FixedTableTag::Zero => 0,
            FixedTableTag::Range5 => 1,
            FixedTableTag::Range16 => 2,
            FixedTableTag::Range32 => 3,
            FixedTableTag::Range64 => 4,
            FixedTableTag::Range256 => 5,
            FixedTableTag::Range512 => 6,
            FixedTableTag::Range1024 => 7,
            FixedTableTag::SignByte => 8,
            FixedTableTag::BitwiseAnd => 9,
            FixedTableTag::BitwiseOr => 10,
            FixedTableTag::BitwiseXor => 11,
            FixedTableTag::ResponsibleOpcode => 12,
            FixedTableTag::Pow2 => 13,
        }
    }

    /// Number of rows of this table, given `n_pairs` (state, opcode) pairs.
    pub fn row_count(&self, n_pairs: usize) -> (r: usize)
        ensures
            r == table_len(*self, n_pairs as nat),
    {
        match self {
            FixedTableTag::Zero => 1,
            FixedTableTag::Range5 => 5,
            FixedTableTag::Range16 => 16,
            FixedTableTag::Range32 => 32,
            FixedTableTag::Range64 => 64,
            FixedTableTag::Range256 => 256,
            FixedTableTag::Range512 => 512,
            FixedTableTag::Range1024 => 1024,
            FixedTableTag::SignByte => 256,
            FixedTableTag::BitwiseAnd => 65536,
            FixedTableTag::BitwiseOr => 65536,
            FixedTableTag::BitwiseXor => 65536,
            FixedTableTag::ResponsibleOpcode => n_pairs,
            FixedTableTag::Pow2 => 256,
        }
    }

    /// Row `i` of this table.
    pub fn row(&self, pairs: &Vec<(u64, u64)>, i: usize) -> (r: FixedRow)
        requires
            i < table_len(*self, pairs@.len()),
        ensures
            r == table_row(*self, pairs@, i as int),
    {
        let t = self.value();
        let lhs = (i / 256) as u8;
        let rhs = (i % 256) as u8;
        match self {
            FixedTableTag::Zero => FixedRow(t, 0, 0, 0),
            FixedTableTag::SignByte => FixedRow(t, i as u128, if i >= 128 { 255 } else { 0 }, 0),
            FixedTableTag::BitwiseAnd => FixedRow(t, lhs as u128, rhs as u128, (lhs & rhs) as u128),
            FixedTableTag::BitwiseOr => FixedRow(t, lhs as u128, rhs as u128, (lhs | rhs) as u128),
            FixedTableTag::BitwiseXor => FixedRow(t, lhs as u128, rhs as u128, (lhs ^ rhs) as u128),
            FixedTableTag::ResponsibleOpcode => FixedRow(t, pairs[i].0 as u128, pairs[i].1 as u128, 0),
            FixedTableTag::Pow2 => if i < 128 {
                FixedRow(t, i as u128, pow2_u128(i as u128), 0)
            } else {
                FixedRow(t, i as u128, 0, pow2_u128((i - 128) as u128))
            },
            _ => FixedRow(t, i as u128, 0, 0),
        }
    }

    /// All rows of this table, in order; `pairs` are the (state, opcode) pairs
    /// of the opcode table.
    pub fn build(&self, pairs: &Vec<(u64, u64)>) -> (r: Vec<FixedRow>)
        ensures
            r@ == table_rows(*self, pairs@),
    {
        let n = self.row_count(pairs.len());
        let mut r: Vec<FixedRow> = Vec::new();
        let mut i: usize = 0;
        while i < n
            invariant
                i <= n == table_len(*self, pairs@.len()),
                r@.len() == i,
                forall|k: int| 0 <= k < i ==> r@[k] == table_row(*self, pairs@, k),
            decreases n - i,
        {
            r.push(self.row(pairs, i));
            i = i + 1;
        }
        proof {
            assert(r@ =~= table_rows(*self, pairs@));
        }
        r
    }
}

} // verus!
