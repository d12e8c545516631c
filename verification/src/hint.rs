//! Inlay hints, the inlays that show them, and the settings that choose among them.

use vstd::prelude::*;

use crate::anchor::{Anchor, TextAnchor};

verus! {

/// What a hint tells about the code.
#[derive(Debug, Clone, Copy, PartialEq, Eq, Structural)]
pub enum InlayHintKind {
    Type,
    Parameter,
}

/// The text of a hint, whole or in parts.
#[derive(Debug)]
pub enum InlayHintLabel {
    String(String),
    LabelParts(Vec<String>),
}

/// The mathematical value of an [`InlayHintLabel`].
pub enum LabelView {
    Whole(Seq<char>),
    Parts(Seq<Seq<char>>),
}

/// A hint, as a language server supplies it.
#[derive(Debug)]
pub struct InlayHint {
    pub position: TextAnchor,
    pub label: InlayHintLabel,
    pub kind: Option<InlayHintKind>,
    pub padding_left: bool,
    pub padding_right: bool,
    pub tooltip: Option<String>,
}

/// The mathematical value of an [`InlayHint`].
pub struct HintView {
    pub position: TextAnchor,
    pub label: LabelView,
    pub kind: Option<InlayHintKind>,
    pub padding_left: bool,
    pub padding_right: bool,
    pub tooltip: Option<Seq<char>>,
}

impl View for InlayHintLabel {
    type V = LabelView;

    open spec fn view(&self) -> LabelView {
        match *self {
            InlayHintLabel::String(text) => LabelView::Whole(text@),
            InlayHintLabel::LabelParts(parts) => LabelView::Parts(
                Seq::new(parts@.len(), |i: int| parts@[i]@),
            ),
        }
    }
}

impl View for InlayHint {
    type V = HintView;

    open spec fn view(&self) -> HintView {
        HintView {
            position: self.position,
            label: self.label@,
            kind: self.kind,
            padding_left: self.padding_left,
            padding_right: self.padding_right,
            tooltip: match self.tooltip {
                Some(text) => Some(text@),
                None => None,
            },
        }
    }
}

impl InlayHintLabel {
    /// Whether the two labels are the same.
    pub fn same_as(&self, other: &InlayHintLabel) -> (same: bool)
        ensures
            same == (self@ == other@),
    {
        match (self, other) {
            (InlayHintLabel::String(a), InlayHintLabel::String(b)) => *a == *b,
            (InlayHintLabel::LabelParts(a), InlayHintLabel::LabelParts(b)) => {
                let ghost av = Seq::new(a@.len(), |i: int| a@[i]@);
                let ghost bv = Seq::new(b@.len(), |i: int| b@[i]@);
                assert(self@ == LabelView::Parts(av));
                assert(other@ == LabelView::Parts(bv));
                if a.len() != b.len() {
                    assert(av.len() != bv.len());
                    return false;
                }
                let mut i: usize = 0;
                while i < a.len()
                    invariant
                        i <= a.len(),
                        a.len() == b.len(),
                        av == Seq::new(a@.len(), |i: int| a@[i]@),
                        bv == Seq::new(b@.len(), |i: int| b@[i]@),
                        self@ == LabelView::Parts(av),
                        other@ == LabelView::Parts(bv),
                        forall|j: int| 0 <= j < i ==> av[j] == bv[j],
                    decreases a.len() - i,
                {
                    if !(a[i] == b[i]) {
                        assert(av[i as int] != bv[i as int]);
                        return false;
                    }
                    assert(av[i as int] == bv[i as int]);
                    i = i + 1;
                }
                assert(av =~= bv);
                true
            },
            _ => false,
        }
    }
}

impl Clone for InlayHintLabel {
    fn clone(&self) -> (copy: Self)
        ensures
            copy@ == self@,
    {
        match self {
            InlayHintLabel::String(text) => InlayHintLabel::String(text.clone()),
            InlayHintLabel::LabelParts(parts) => {
                let mut copied: Vec<String> = Vec::new();
                let mut i: usize = 0;
                while i < parts.len()
                    invariant
                        i <= parts.len(),
                        copied.len() == i,
                        forall|j: int| 0 <= j < i ==> #[trigger] copied@[j]@ == parts@[j]@,
                    decreases parts.len() - i,
                {
                    copied.push(parts[i].clone());
                    i = i + 1;
                }
                let copy = InlayHintLabel::LabelParts(copied);
                assert(copy@->Parts_0 =~= self@->Parts_0);
                copy
            },
        }
    }
}

impl InlayHint {
    /// Whether the two hints are the same in all their parts.
    pub fn same_as(&self, other: &InlayHint) -> (same: bool)
        ensures
            same == (self@ == other@),
    {
        let same_tooltip = match (&self.tooltip, &other.tooltip) {
            (Some(a), Some(b)) => *a == *b,
            (None, None) => true,
            _ => false,
        };
        let same_kind = match (self.kind, other.kind) {
            (Some(a), Some(b)) => a == b,
            (None, None) => true,
            _ => false,
        };
        self.position == other.position && same_kind && self.padding_left == other.padding_left
            && self.padding_right == other.padding_right && same_tooltip && self.label.same_as(
            &other.label,
        )
    }
}

impl Clone for InlayHint {
    fn clone(&self) -> (copy: Self)
        ensures
            copy@ == self@,
    {
        InlayHint {
            position: self.position,
            label: self.label.clone(),
            kind: self.kind,
            padding_left: self.padding_left,
            padding_right: self.padding_right,
            tooltip: match &self.tooltip {
                Some(text) => Some(text.clone()),
                None => None,
            },
        }
    }
}

/// Identifies an inlay of an editor.
#[derive(Debug, Clone, Copy, PartialEq, Eq, Structural)]
pub enum InlayId {
    Suggestion(usize),
    Hint(usize),
}

/// An inlay that an editor shows.
#[derive(Debug, Clone, Copy, PartialEq, Eq, Structural)]
pub struct Inlay {
    pub id: InlayId,
    pub position: Anchor,
}

/// A set of kinds of hints. `None` is the kind of the hints that have none.
#[derive(Debug, Clone, Copy, PartialEq, Eq, Structural)]
pub struct HintKinds {
    pub types: bool,
    pub parameters: bool,
    pub others: bool,
}

impl View for HintKinds {
    type V = Set<Option<InlayHintKind>>;

    open spec fn view(&self) -> Set<Option<InlayHintKind>> {
        Set::new(|kind: Option<InlayHintKind>| self.spec_contains(kind))
    }
}

impl HintKinds {
    /// Whether `kind` is in the set.
    pub open spec fn spec_contains(&self, kind: Option<InlayHintKind>) -> bool {
        match kind {
            Some(InlayHintKind::Type) => self.types,
            Some(InlayHintKind::Parameter) => self.parameters,
            None => self.others,
        }
    }

    /// The empty set.
    pub fn new() -> (kinds: Self)
        ensures
            kinds@ == Set::<Option<InlayHintKind>>::empty(),
    {
        HintKinds { types: false, parameters: false, others: false }
    }

    /// Adds `kind` to the set.
    pub fn insert(&mut self, kind: Option<InlayHintKind>)
        ensures
            final(self)@ == old(self)@.insert(kind),
    {
        match kind {
            Some(InlayHintKind::Type) => {
                self.types = true;
            },
            Some(InlayHintKind::Parameter) => {
                self.parameters = true;
            },
            None => {
                self.others = true;
            },
        }
        assert(self@ =~= old(self)@.insert(kind));
    }

    /// Whether `kind` is in the set.
    pub fn contains(&self, kind: Option<InlayHintKind>) -> (contained: bool)
        ensures
            contained == self@.contains(kind),
    {
        match kind {
            Some(InlayHintKind::Type) => self.types,
            Some(InlayHintKind::Parameter) => self.parameters,
            None => self.others,
        }
    }

    /// Whether the two sets have the same kinds.
    pub fn same_as(&self, other: &HintKinds) -> (same: bool)
        ensures
            same == (self@ == other@),
            same == (*self == *other),
    {
        proof {
            if self@ == other@ {
                let kinds = seq![Some(InlayHintKind::Type), Some(InlayHintKind::Parameter), None];
                assert forall|i: int| 0 <= i < 3 implies self.spec_contains(#[trigger] kinds[i])
                    == other.spec_contains(kinds[i]) by {
                    assert(self@.contains(kinds[i]) == other@.contains(kinds[i]));
                }
                assert(kinds[0] == Some(InlayHintKind::Type));
                assert(kinds[1] == Some(InlayHintKind::Parameter));
                assert(kinds[2] == None::<InlayHintKind>);
            }
        }
        self.types == other.types && self.parameters == other.parameters && self.others
            == other.others
    }
}

/// Whether to show hints, and which of them.
#[derive(Debug, Clone, Copy, PartialEq, Eq, Structural)]
pub struct InlayHintSettings {
    pub enabled: bool,
    pub show_type_hints: bool,
    pub show_parameter_hints: bool,
    pub show_other_hints: bool,
}

impl InlayHintSettings {
    /// The kinds of hints that the settings choose.
    pub open spec fn spec_enabled_inlay_hint_kinds(&self) -> Set<Option<InlayHintKind>> {
        Set::new(
            |kind: Option<InlayHintKind>|
                match kind {
                    Some(InlayHintKind::Type) => self.show_type_hints,
                    Some(InlayHintKind::Parameter) => self.show_parameter_hints,
                    None => self.show_other_hints,
                },
        )
    }

    /// The kinds of hints that the settings choose.
    pub fn enabled_inlay_hint_kinds(&self) -> (kinds: HintKinds)
        ensures
            kinds@ == self.spec_enabled_inlay_hint_kinds(),
    {
        let kinds = HintKinds {
            types: self.show_type_hints,
            parameters: self.show_parameter_hints,
            others: self.show_other_hints,
        };
        assert(kinds@ =~= self.spec_enabled_inlay_hint_kinds());
        kinds
    }
}

} // verus!
