//! The expression tree that the parser builds and the emitter renders.
//!
//! Each type has a view, in which a `String` is its sequence of characters
//! and a `Vec` is a `Seq`: the contracts of the parser and of the emitter
//! speak of the views.

use vstd::prelude::*;
use crate::srlchar::{is_lower, is_upper};
use crate::token::{Anchors, Flags};

verus! {

/// How often what stands before it is repeated.
#[derive(Clone, Copy, Debug, PartialEq, Eq)]
pub enum Quantifier {
    NeverOrMore,
    Once,
    OnceOrMore,
    Twice,
    Optional,
    Exactly(i32),
    Between { from: i32, to: i32 },
    AtLeast(i32),
}

/// An atom: a literal text, a set or class of characters, or one of the
/// predefined classes.
#[derive(Clone, Debug, PartialEq, Eq)]
pub enum CharKind {
    Literally(String),
    OneOf(String),
    Raw(String),
    Letter { from: char, to: char },
    UppercaseLetter { from: char, to: char },
    Digit { from: i32, to: i32 },
    AnyCharacter,
    NoCharacter,
    Anything,
    NewLine,
    Whitespace,
    NoWhitespace,
    Tab,
}

/// The four assertions about what stands before or behind a position.
#[derive(Clone, Copy, Debug, PartialEq, Eq)]
pub enum LookAround {
    IfFollowedBy,
    IfNotFollowedBy,
    IfAlreadyHad,
    IfNotAlreadyHad,
}

/// A group: a group word with the expressions that it holds. In `AnyOf`
/// the expressions are alternatives, in the others they follow each other.
#[derive(Debug, PartialEq, Eq)]
pub enum Group {
    Capture { inner: Vec<Expr>, name: Option<String> },
    AnyOf { inner: Vec<Expr> },
    Until { inner: Vec<Expr> },
    LookAround { kind: LookAround, inner: Vec<Expr> },
}

/// What an expression is about: an atom or a group.
#[derive(Debug, PartialEq, Eq)]
pub enum Character {
    CharKind(CharKind),
    Group(Group),
}

/// One element of a pattern: an atom or group with its quantifier and the
/// flags that follow it, or an anchor.
#[derive(Debug, PartialEq, Eq)]
pub enum Expr {
    Character(Character, Option<Quantifier>, Vec<Flags>),
    Anchor(Anchors),
}

/// An atom as the contracts see it.
pub enum CharKindView {
    Literally(Seq<char>),
    OneOf(Seq<char>),
    Raw(Seq<char>),
    Letter { from: char, to: char },
    UppercaseLetter { from: char, to: char },
    Digit { from: int, to: int },
    AnyCharacter,
    NoCharacter,
    Anything,
    NewLine,
    Whitespace,
    NoWhitespace,
    Tab,
}

/// A group as the contracts see it.
pub enum GroupView {
    Capture { inner: Seq<ExprView>, name: Option<Seq<char>> },
    AnyOf { inner: Seq<ExprView> },
    Until { inner: Seq<ExprView> },
    LookAround { kind: LookAround, inner: Seq<ExprView> },
}

/// An atom or group as the contracts see it.
pub enum CharacterView {
    CharKind(CharKindView),
    Group(GroupView),
}

/// An element of a pattern as the contracts see it.
pub enum ExprView {
    Character(CharacterView, Option<Quantifier>, Seq<Flags>),
    Anchor(Anchors),
}

impl Quantifier {
    /// Counts are not negative, and the bounds of `Between` are in order.
    pub open spec fn wf(self) -> bool {
        match self {
            Quantifier::Exactly(n) => n >= 0,
            Quantifier::AtLeast(n) => n >= 0,
            Quantifier::Between { from, to } => 0 <= from <= to,
            _ => true,
        }
    }
}

impl CharKindView {
    /// The bounds of a range belong to its class and are in order.
    pub open spec fn wf(self) -> bool {
        match self {
            CharKindView::Letter { from, to } => is_lower(from) && is_lower(to) && from <= to,
            CharKindView::UppercaseLetter { from, to } => is_upper(from) && is_upper(to) && from
                <= to,
            CharKindView::Digit { from, to } => 0 <= from <= to <= 9,
            _ => true,
        }
    }
}

impl GroupView {
    /// The expressions that the group holds.
    pub open spec fn inner(self) -> Seq<ExprView> {
        match self {
            GroupView::Capture { inner, .. } => inner,
            GroupView::AnyOf { inner } => inner,
            GroupView::Until { inner } => inner,
            GroupView::LookAround { inner, .. } => inner,
        }
    }
}

impl ExprView {
    /// An expression within a group: no anchor, ranges and counts are well
    /// formed, and no group in it is empty.
    pub open spec fn wf(self) -> bool
        decreases self, 1int,
    {
        match self {
            ExprView::Anchor(_) => false,
            ExprView::Character(c, q, _) => {
                &&& q matches Some(quantifier) ==> quantifier.wf()
                &&& match c {
                    CharacterView::CharKind(kind) => kind.wf(),
                    CharacterView::Group(g) => {
                        let inner = match g {
                            GroupView::Capture { inner, .. } => inner,
                            GroupView::AnyOf { inner } => inner,
                            GroupView::Until { inner } => inner,
                            GroupView::LookAround { inner, .. } => inner,
                        };
                        inner.len() > 0 && all_wf(inner)
                    },
                }
            },
        }
    }
}

/// Every expression of the sequence is well formed.
pub open spec fn all_wf(exprs: Seq<ExprView>) -> bool
    decreases exprs, 0int,
{
    if exprs.len() == 0 {
        true
    } else {
        all_wf(exprs.drop_last()) && exprs.last().wf()
    }
}

/// A whole pattern: an anchor stands only at an end, `BeginWith` first and
/// `MustEnd` last, and everything between is well formed.
pub open spec fn pattern_wf(exprs: Seq<ExprView>) -> bool {
    forall|i: int|
        0 <= i < exprs.len() ==> match #[trigger] exprs[i] {
            ExprView::Anchor(Anchors::BeginWith) => i == 0,
            ExprView::Anchor(Anchors::MustEnd) => i == exprs.len() - 1,
            e => e.wf(),
        }
}

impl View for CharKind {
    type V = CharKindView;

    open spec fn view(&self) -> CharKindView {
        match self {
            CharKind::Literally(s) => CharKindView::Literally(s@),
            CharKind::OneOf(s) => CharKindView::OneOf(s@),
            CharKind::Raw(s) => CharKindView::Raw(s@),
            CharKind::Letter { from, to } => CharKindView::Letter { from: *from, to: *to },
            CharKind::UppercaseLetter { from, to } => CharKindView::UppercaseLetter {
                from: *from,
                to: *to,
            },
            CharKind::Digit { from, to } => CharKindView::Digit { from: *from as int, to: *to as int },
            CharKind::AnyCharacter => CharKindView::AnyCharacter,
            CharKind::NoCharacter => CharKindView::NoCharacter,
            CharKind::Anything => CharKindView::Anything,
            CharKind::NewLine => CharKindView::NewLine,
            CharKind::Whitespace => CharKindView::Whitespace,
            CharKind::NoWhitespace => CharKindView::NoWhitespace,
            CharKind::Tab => CharKindView::Tab,
        }
    }
}

/// The view of an expression.
pub open spec fn expr_view(e: Expr) -> ExprView
    decreases e, 1int,
{
    match e {
        Expr::Anchor(a) => ExprView::Anchor(a),
        Expr::Character(c, q, flags) => ExprView::Character(
            match c {
                Character::CharKind(kind) => CharacterView::CharKind(kind@),
                Character::Group(g) => CharacterView::Group(
                    match g {
                        Group::Capture { inner, name } => GroupView::Capture {
                            inner: exprs_view(inner@),
                            name: match name {
                                Some(n) => Some(n@),
                                None => None,
                            },
                        },
                        Group::AnyOf { inner } => GroupView::AnyOf { inner: exprs_view(inner@) },
                        Group::Until { inner } => GroupView::Until { inner: exprs_view(inner@) },
                        Group::LookAround { kind, inner } => GroupView::LookAround {
                            kind,
                            inner: exprs_view(inner@),
                        },
                    },
                ),
            },
            q,
            flags@,
        ),
    }
}

/// The views of the expressions of a sequence, in order.
pub open spec fn exprs_view(exprs: Seq<Expr>) -> Seq<ExprView>
    decreases exprs, 0int,
{
    if exprs.len() == 0 {
        Seq::empty()
    } else {
        exprs_view(exprs.drop_last()).push(expr_view(exprs.last()))
    }
}

impl View for Expr {
    type V = ExprView;

    open spec fn view(&self) -> ExprView {
        expr_view(*self)
    }
}

impl View for Group {
    type V = GroupView;

    open spec fn view(&self) -> GroupView {
        match self {
            Group::Capture { inner, name } => GroupView::Capture {
                inner: exprs_view(inner@),
                name: match name {
                    Some(n) => Some(n@),
                    None => None,
                },
            },
            Group::AnyOf { inner } => GroupView::AnyOf { inner: exprs_view(inner@) },
            Group::Until { inner } => GroupView::Until { inner: exprs_view(inner@) },
            Group::LookAround { kind, inner } => GroupView::LookAround {
                kind: *kind,
                inner: exprs_view(inner@),
            },
        }
    }
}

impl View for Character {
    type V = CharacterView;

    open spec fn view(&self) -> CharacterView {
        match self {
            Character::CharKind(kind) => CharacterView::CharKind(kind@),
            Character::Group(g) => CharacterView::Group(g@),
        }
    }
}

/// The view of a sequence of expressions has the view of each expression
/// at its place.
pub proof fn lemma_exprs_view(exprs: Seq<Expr>)
    ensures
        exprs_view(exprs).len() == exprs.len(),
        forall|i: int| 0 <= i < exprs.len() ==> #[trigger] exprs_view(exprs)[i] == expr_view(exprs[i]),
    decreases exprs.len(),
{
    if exprs.len() > 0 {
        lemma_exprs_view(exprs.drop_last());
    }
}

/// Adding an expression to a sequence adds its view to the view.
pub proof fn lemma_exprs_view_push(exprs: Seq<Expr>, e: Expr)
    ensures
        exprs_view(exprs.push(e)) == exprs_view(exprs).push(expr_view(e)),
{
    assert(exprs.push(e).drop_last() =~= exprs);
}

/// A sequence is well formed exactly when each of its expressions is.
pub proof fn lemma_all_wf(exprs: Seq<ExprView>)
    ensures
        all_wf(exprs) <==> forall|i: int| 0 <= i < exprs.len() ==> (#[trigger] exprs[i]).wf(),
    decreases exprs.len(),
{
    if exprs.len() > 0 {
        lemma_all_wf(exprs.drop_last());
        if all_wf(exprs) {
            assert forall|i: int| 0 <= i < exprs.len() implies (#[trigger] exprs[i]).wf() by {
                if i < exprs.len() - 1 {
                    assert(exprs.drop_last()[i] == exprs[i]);
                }
            }
        } else if forall|i: int| 0 <= i < exprs.len() ==> (#[trigger] exprs[i]).wf() {
            assert forall|i: int| 0 <= i < exprs.drop_last().len() implies (
            #[trigger] exprs.drop_last()[i]).wf() by {}
        }
    }
}

} // verus!
