//! What to tell an engine about one variable.
//!
//! An engine starts every variable out unnamed, continuous and with bounds
//! of its own choosing. A request changes only what it states, so the
//! definition of a variable is a short list of settings to apply in order.

use vstd::prelude::*;
use crate::schema::{VariableDef, VariableView};

verus! {

/// One change to the definition of a fresh variable.
#[derive(Clone, Debug, PartialEq)]
pub enum Setting<N> {
    /// Call the variable by this name.
    Name(String),
    /// Keep the variable at or above this value.
    Min(N),
    /// Keep the variable at or below this value.
    Max(N),
    /// Start the search from this value.
    Initial(N),
    /// Admit integer values only.
    Integer,
}

/// View of a [`Setting`].
pub enum SettingView<N> {
    Name(Seq<char>),
    Min(N),
    Max(N),
    Initial(N),
    Integer,
}

impl<N> View for Setting<N> {
    type V = SettingView<N>;

    open spec fn view(&self) -> SettingView<N> {
        match self {
            Setting::Name(name) => SettingView::Name(name@),
            Setting::Min(value) => SettingView::Min(*value),
            Setting::Max(value) => SettingView::Max(*value),
            Setting::Initial(value) => SettingView::Initial(*value),
            Setting::Integer => SettingView::Integer,
        }
    }
}

impl<N> DeepView for Setting<N> {
    type V = SettingView<N>;

    #[verifier::inline]
    open spec fn deep_view(&self) -> SettingView<N> {
        self@
    }
}

/// The setting that a present value calls for, and none for an absent one.
pub open spec fn optional<N>(value: Option<N>, setting: spec_fn(N) -> SettingView<N>) -> Seq<
    SettingView<N>,
> {
    match value {
        Some(v) => seq![setting(v)],
        None => Seq::empty(),
    }
}

impl<N> VariableView<N> {
    /// The settings of a variable: its name, then each of lower bound, upper
    /// bound and initial value that is present, then integrality if asked
    /// for. What is absent is left to the engine.
    pub open spec fn settings(self) -> Seq<SettingView<N>> {
        seq![SettingView::Name(self.name)] + optional(self.min, |v: N| SettingView::Min(v))
            + optional(self.max, |v: N| SettingView::Max(v)) + optional(
            self.initial,
            |v: N| SettingView::Initial(v),
        ) + (if self.integer {
            seq![SettingView::Integer]
        } else {
            Seq::empty()
        })
    }
}

impl<N: Copy> VariableDef<N> {
    /// The settings to apply, in order, to a fresh variable of an engine.
    pub fn settings(&self) -> (r: Vec<Setting<N>>)
        ensures
            r.deep_view() == self@.settings(),
    {
        let mut out: Vec<Setting<N>> = Vec::new();
        out.push(Setting::Name(self.name.clone()));
        if let Some(min) = self.min {
            out.push(Setting::Min(min));
        }
        if let Some(max) = self.max {
            out.push(Setting::Max(max));
        }
        if let Some(initial) = self.initial {
            out.push(Setting::Initial(initial));
        }
        if self.integer {
            out.push(Setting::Integer);
        }
        assert(out.deep_view() =~= self@.settings());
        out
    }
}

} // verus!
