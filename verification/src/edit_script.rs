//! Edit scripts between two token sequences.

use std::ops::Range;
use vstd::prelude::*;

verus! {

/// What an edit does.
#[derive(Clone, Copy, Debug, PartialEq, Eq, Structural)]
pub enum DiffTag {
    Equal,
    Delete,
    Insert,
    Replace,
}

/// One edit: the old tokens in `old` became the new tokens in `new`.
#[derive(Debug)]
pub struct EditOp {
    pub tag: DiffTag,
    pub old: Range<usize>,
    pub new: Range<usize>,
}

/// The side of a pair that a range belongs to.
#[derive(Clone, Copy, Debug, PartialEq, Eq, Structural)]
pub enum Side {
    Old,
    New,
}

impl EditOp {
    /// The tokens of one side that the edit covers.
    pub open spec fn covers(self, side: Side) -> Range<usize> {
        match side {
            Side::Old => self.old,
            Side::New => self.new,
        }
    }

    /// How many tokens of one side the edit covers.
    pub open spec fn count(self, side: Side) -> int {
        self.covers(side).end - self.covers(side).start
    }
}

/// How many tokens of one side the first `n` edits cover.
pub open spec fn covered(ops: Seq<EditOp>, side: Side, n: int) -> int
    decreases n,
{
    if n <= 0 {
        0
    } else {
        covered(ops, side, n - 1) + ops[n - 1].count(side)
    }
}

/// Whether the edits cover the `len` tokens of one side once each, in order.
/// An edit that covers none of them may carry any position.
pub open spec fn tiles(ops: Seq<EditOp>, side: Side, len: int) -> bool {
    &&& forall|i: int|
        #![trigger ops[i]]
        0 <= i < ops.len() ==> ops[i].count(side) >= 0 && (ops[i].count(side) > 0
            ==> ops[i].covers(side).start == covered(ops, side, i))
    &&& covered(ops, side, ops.len() as int) == len
}

/// Whether an edit that claims equality pairs equal tokens.
pub open spec fn pairs_equal(op: EditOp, old: Seq<Seq<char>>, new: Seq<Seq<char>>) -> bool {
    op.tag == DiffTag::Equal ==> {
        &&& op.count(Side::Old) == op.count(Side::New)
        &&& forall|k: int|
            0 <= k < op.count(Side::Old) ==> old[#[trigger] (op.old.start + k)] == new[op.new.start
                + k]
    }
}

/// Whether the edits turn `old` into `new`.
pub open spec fn is_edit_script(
    ops: Seq<EditOp>,
    old: Seq<Seq<char>>,
    new: Seq<Seq<char>>,
) -> bool {
    &&& tiles(ops, Side::Old, old.len() as int)
    &&& tiles(ops, Side::New, new.len() as int)
    &&& forall|i: int| 0 <= i < ops.len() ==> pairs_equal(#[trigger] ops[i], old, new)
}

/// The edit script that Myers' algorithm finds.
pub uninterp spec fn myers_script(old: Seq<Seq<char>>, new: Seq<Seq<char>>) -> Seq<EditOp>;

/// The texts of a list of strings.
pub open spec fn texts(list: Seq<&str>) -> Seq<Seq<char>> {
    Seq::new(list.len(), |i: int| list[i]@)
}

/// `similar::capture_diff_slices` with `Algorithm::Myers` and no deadline,
/// each operation taken by `DiffOp::as_tag_tuple`. Which of the possible
/// scripts it picks depends on the two lists alone and is named, not spelled
/// out; it is an edit script from `old` to `new`, and between equal lists it
/// holds nothing but equal runs.
#[verifier::external_body]
pub(crate) fn capture_diff_slices(old: &Vec<&str>, new: &Vec<&str>) -> (ops: Vec<EditOp>)
    ensures
        ops@ == myers_script(texts(old@), texts(new@)),
        is_edit_script(ops@, texts(old@), texts(new@)),
        texts(old@) == texts(new@) ==> forall|i: int|
            0 <= i < ops@.len() ==> (#[trigger] ops@[i]).tag == DiffTag::Equal,
{
    let captured = similar::capture_diff_slices(similar::Algorithm::Myers, old, new);
    captured.iter().map(|op| {
        let (tag, old, new) = op.as_tag_tuple();
        let tag = match tag {
            similar::DiffTag::Equal => DiffTag::Equal,
            similar::DiffTag::Delete => DiffTag::Delete,
            similar::DiffTag::Insert => DiffTag::Insert,
            similar::DiffTag::Replace => DiffTag::Replace,
        };
        EditOp { tag, old, new }
    }).collect()
}

} // verus!
