//! The requirement tree that a requisite string denotes.
use crate::text::{three_of, CharClass};
use vstd::prelude::*;

verus! {

/// A boolean requirement over course codes, as a mathematical value: the
/// model of [`RequisiteGroup`].
pub enum RequisiteTree {
    /// One course, named by its code.
    Course(Seq<char>),
    /// Every child must hold.
    AllOf(Seq<RequisiteTree>),
    /// At least one child must hold.
    AnyOf(Seq<RequisiteTree>),
}

/// The two operators that join requirements.
#[derive(Debug, Clone, Copy, PartialEq, Eq)]
pub enum Operator {
    And,
    Or,
}

impl Operator {
    /// The operator as it stands between two operands: its word between
    /// two spaces.
    pub open spec fn word(self) -> Seq<char> {
        match self {
            Operator::And => seq![' ', 'A', 'N', 'D', ' '],
            Operator::Or => seq![' ', 'O', 'R', ' '],
        }
    }
}

/// Whether `code` is a canonical course code: three upper-case letters, one
/// space, three digits.
pub open spec fn is_canonical_code(code: Seq<char>) -> bool {
    &&& code.len() == 7
    &&& three_of(code, 0, CharClass::Upper)
    &&& code[3] == ' '
    &&& three_of(code, 4, CharClass::Digit)
}

impl RequisiteTree {
    /// The node that joins `first` and `second` under `operator`.
    pub open spec fn join(operator: Operator, first: RequisiteTree, second: RequisiteTree) -> Self {
        match operator {
            Operator::And => RequisiteTree::AllOf(seq![first, second]),
            Operator::Or => RequisiteTree::AnyOf(seq![first, second]),
        }
    }

    /// Whether every leaf holds a canonical course code and every inner
    /// node has exactly two children.
    pub open spec fn well_formed(self) -> bool
        decreases self,
    {
        match self {
            RequisiteTree::Course(code) => is_canonical_code(code),
            RequisiteTree::AllOf(children) => children.len() == 2 && children[0].well_formed()
                && children[1].well_formed(),
            RequisiteTree::AnyOf(children) => children.len() == 2 && children[0].well_formed()
                && children[1].well_formed(),
        }
    }
}

/// A boolean requirement over course codes.
#[derive(Debug, PartialEq)]
pub enum RequisiteGroup {
    /// One course, named by its code.
    Course(String),
    /// Every child must hold.
    AllOf(Vec<RequisiteGroup>),
    /// At least one child must hold.
    AnyOf(Vec<RequisiteGroup>),
}

/// The models of the groups in `groups`, in order.
pub open spec fn views(groups: Seq<RequisiteGroup>) -> Seq<RequisiteTree> {
    Seq::new(groups.len(), |i: int| groups[i]@)
}

impl View for RequisiteGroup {
    type V = RequisiteTree;

    open spec fn view(&self) -> RequisiteTree
        decreases self,
    {
        match self {
            RequisiteGroup::Course(code) => RequisiteTree::Course(code@),
            RequisiteGroup::AllOf(children) => RequisiteTree::AllOf(
                Seq::new(
                    children@.len(),
                    |i: int|
                        if 0 <= i < children@.len() {
                            children@[i].view()
                        } else {
                            RequisiteTree::Course(Seq::empty())
                        },
                ),
            ),
            RequisiteGroup::AnyOf(children) => RequisiteTree::AnyOf(
                Seq::new(
                    children@.len(),
                    |i: int|
                        if 0 <= i < children@.len() {
                            children@[i].view()
                        } else {
                            RequisiteTree::Course(Seq::empty())
                        },
                ),
            ),
        }
    }
}

/// The model of an inner node holds the models of its children.
pub proof fn lemma_view_children(group: RequisiteGroup)
    ensures
        group matches RequisiteGroup::AllOf(children) ==> group@ == RequisiteTree::AllOf(
            views(children@),
        ),
        group matches RequisiteGroup::AnyOf(children) ==> group@ == RequisiteTree::AnyOf(
            views(children@),
        ),
{
    match group {
        RequisiteGroup::Course(_) => {},
        RequisiteGroup::AllOf(children) => {
            assert(group@->AllOf_0 =~= views(children@));
        },
        RequisiteGroup::AnyOf(children) => {
            assert(group@->AnyOf_0 =~= views(children@));
        },
    }
}

fn clone_all(groups: &Vec<RequisiteGroup>) -> (copies: Vec<RequisiteGroup>)
    ensures
        views(copies@) == views(groups@),
    decreases groups, 0nat,
{
    let mut copies: Vec<RequisiteGroup> = Vec::new();
    let mut i: usize = 0;
    while i < groups.len()
        invariant
            i <= groups.len(),
            copies@.len() == i,
            forall|j: int| 0 <= j < i ==> (#[trigger] copies@[j])@ == groups@[j]@,
        decreases groups.len() - i,
    {
        let copy = groups[i].clone();
        copies.push(copy);
        i += 1;
    }
    assert(views(copies@) =~= views(groups@));
    copies
}

impl Clone for RequisiteGroup {
    fn clone(&self) -> (copy: Self)
        ensures
            copy@ == self@,
        decreases self, 1nat,
    {
        match self {
            RequisiteGroup::Course(code) => RequisiteGroup::Course(code.clone()),
            RequisiteGroup::AllOf(children) => {
                let copy = RequisiteGroup::AllOf(clone_all(children));
                proof {
                    lemma_view_children(copy);
                    lemma_view_children(*self);
                }
                copy
            },
            RequisiteGroup::AnyOf(children) => {
                let copy = RequisiteGroup::AnyOf(clone_all(children));
                proof {
                    lemma_view_children(copy);
                    lemma_view_children(*self);
                }
                copy
            },
        }
    }
}

impl RequisiteGroup {
    /// Builds the node that joins `first` and `second` under `operator`.
    pub fn join(operator: Operator, first: RequisiteGroup, second: RequisiteGroup) -> (group:
        RequisiteGroup)
        ensures
            group@ == RequisiteTree::join(operator, first@, second@),
    {
        let mut children: Vec<RequisiteGroup> = Vec::new();
        children.push(first);
        children.push(second);
        assert(views(children@) =~= seq![first@, second@]);
        let group = match operator {
            Operator::And => RequisiteGroup::AllOf(children),
            Operator::Or => RequisiteGroup::AnyOf(children),
        };
        proof {
            lemma_view_children(group);
        }
        group
    }
}

/// A grammar failure: the recognizer could not match at some place of its
/// input. `remaining` is the input from that place on.
#[derive(Debug, Clone, Copy, PartialEq, Eq)]
pub struct GrammarError<'a> {
    pub remaining: &'a str,
}

} // verus!
