//! The demo session: the canonical environment, the saved user state, the
//! preset examples and the current selection. Every state transition is a
//! discrete event handler that runs to completion; the decisions live
//! here, and the surrounding application only performs the editor and
//! interpreter actions they call for.

use crate::env::insert_all;
use crate::env::Aggregator;
use crate::env::Environment;
use crate::env::NamedValue;
use crate::row::edited_row;
use crate::row::row_derivable;
use crate::row::row_size_fits;
use crate::row::row_yields;
use crate::row::EnvironmentRow;
use crate::row::RowEdit;
use crate::tensor::TensorModel;
use vstd::prelude::*;

verus! {

/// A canned example: a name, a description, a source text, and the
/// environment it needs. Immutable demo content, injected at startup.
pub struct PresetExample {
    pub name: String,
    pub description: String,
    pub source_text: String,
    pub environment: Environment,
}

/// The mathematical state of a preset.
#[verifier::ext_equal]
pub struct PresetModel {
    pub name: Seq<char>,
    pub description: Seq<char>,
    pub source: Seq<char>,
    pub entries: Seq<NamedValue>,
}

impl View for PresetExample {
    type V = PresetModel;

    open spec fn view(&self) -> PresetModel {
        PresetModel {
            name: self.name@,
            description: self.description@,
            source: self.source_text@,
            entries: self.environment.entries@,
        }
    }
}

/// The mathematical state of a session.
#[verifier::ext_equal]
pub struct SessionModel {
    pub presets: Seq<PresetModel>,
    pub env: Map<Seq<char>, TensorModel>,
    pub user_env: Map<Seq<char>, TensorModel>,
    pub user_source: Seq<char>,
    pub selected: Option<int>,
}

/// Selecting preset `i`: the current editor text is saved as the user's
/// source, and the preset's pairs are applied to the environment.
pub open spec fn spec_select(m: SessionModel, i: int, editor: Seq<char>) -> SessionModel {
    SessionModel {
        selected: Some(i),
        user_source: editor,
        env: insert_all(m.env, m.presets[i].entries),
        ..m
    }
}

/// Deselecting: the environment saved for the user is restored wholesale.
pub open spec fn spec_deselect(m: SessionModel) -> SessionModel {
    SessionModel { selected: None, env: m.user_env, ..m }
}

/// A row reported a value: it is recorded both in the canonical
/// environment and in the user's saved environment.
pub open spec fn spec_update_value(
    m: SessionModel,
    name: Seq<char>,
    t: TensorModel,
) -> SessionModel {
    SessionModel { env: m.env.insert(name, t), user_env: m.user_env.insert(name, t), ..m }
}

/// What the editor shows: the selected preset's source, or the user's own
/// text when nothing is selected.
pub open spec fn displayed_source(m: SessionModel) -> Seq<char> {
    match m.selected {
        Some(i) => m.presets[i].source,
        None => m.user_source,
    }
}

/// The session invariant: a selection is in range, and while nothing is
/// selected the canonical environment is exactly the user's own.
pub open spec fn session_inv(m: SessionModel) -> bool {
    &&& (m.selected matches Some(i) ==> 0 <= i < m.presets.len())
    &&& (m.selected is None ==> m.env == m.user_env)
}

/// The top-level state behind the demo page.
pub struct Session {
    pub presets: Vec<PresetExample>,
    pub aggregator: Aggregator,
    pub user_env: Environment,
    pub user_source: String,
    pub selected: Option<usize>,
}

impl View for Session {
    type V = SessionModel;

    open spec fn view(&self) -> SessionModel {
        SessionModel {
            presets: Seq::new(self.presets@.len(), |i: int| self.presets@[i]@),
            env: self.aggregator.env@,
            user_env: self.user_env@,
            user_source: self.user_source@,
            selected: match self.selected {
                Some(i) => Some(i as int),
                None => None,
            },
        }
    }
}

impl Session {
    /// The stored environments are well formed and the invariant holds of
    /// the model.
    pub open spec fn wf(&self) -> bool {
        &&& self.aggregator.env.wf()
        &&& self.user_env.wf()
        &&& forall|i: int|
            0 <= i < self.presets@.len() ==> (#[trigger] self.presets@[i]).environment.wf()
        &&& session_inv(self@)
    }

    /// A fresh session over the given preset list: empty environment,
    /// empty user state, nothing selected.
    pub fn new(presets: Vec<PresetExample>) -> (r: Session)
        requires
            forall|i: int|
                0 <= i < presets@.len() ==> (#[trigger] presets@[i]).environment.wf(),
        ensures
            r.wf(),
            r@.presets == Seq::new(presets@.len(), |i: int| presets@[i]@),
            r@.env == Map::<Seq<char>, TensorModel>::empty(),
            r@.user_env == Map::<Seq<char>, TensorModel>::empty(),
            r@.user_source.len() == 0,
            r@.selected is None,
    {
        Session {
            presets,
            aggregator: Aggregator::new(),
            user_env: Environment::new(),
            user_source: String::new(),
            selected: None,
        }
    }

    /// The text the editor should show.
    pub fn displayed_source_text(&self) -> (r: String)
        requires
            self.wf(),
        ensures
            r@ == displayed_source(self@),
    {
        match self.selected {
            Some(i) => self.presets[i].source_text.clone(),
            None => self.user_source.clone(),
        }
    }

    /// Select preset `i`: save the editor's current text as the user's
    /// source and apply the preset's pairs to the environment.
    pub fn select_example(&mut self, i: usize, editor_text: String)
        requires
            old(self).wf(),
            i < old(self).presets@.len(),
        ensures
            final(self).wf(),
            final(self)@ == spec_select(old(self)@, i as int, editor_text@),
    {
        self.selected = Some(i);
        self.user_source = editor_text;
        proof {
            assert(old(self).presets@[i as int].environment.wf());
        }
        self.aggregator.apply_preset(&self.presets[i].environment.entries);
        proof {
            assert(self@.presets =~= old(self)@.presets);
            assert(self@ =~= spec_select(old(self)@, i as int, editor_text@));
        }
    }

    /// Deselect: restore the environment saved for the user.
    pub fn deselect_example(&mut self)
        requires
            old(self).wf(),
        ensures
            final(self).wf(),
            final(self)@ == spec_deselect(old(self)@),
    {
        self.selected = None;
        let base = self.user_env.duplicate();
        self.aggregator.reset(base);
        proof {
            assert(self@.presets =~= old(self)@.presets);
            assert(self@ =~= spec_deselect(old(self)@));
        }
    }

    /// Record a named value reported by a row, in both the canonical and
    /// the user's saved environment.
    pub fn update_environment_value(&mut self, nv: NamedValue)
        requires
            old(self).wf(),
            nv.value.wf(),
        ensures
            final(self).wf(),
            final(self)@ == spec_update_value(old(self)@, nv.name@, nv.value@),
    {
        let name = nv.name.clone();
        let value = nv.value.duplicate();
        self.user_env.insert(NamedValue { name, value });
        self.aggregator.on_row_update(nv);
        proof {
            assert(self@.presets =~= old(self)@.presets);
            assert(self@ =~= spec_update_value(old(self)@, nv.name@, nv.value@));
        }
    }

    /// Apply one edit to a row and deliver its notification, if any: the
    /// edited row re-derives its value, and a derived value is recorded
    /// in the environments. An edit that leaves the row incomplete or
    /// invalid changes nothing but the row.
    pub fn handle_row_edit(&mut self, row: &mut EnvironmentRow, edit: RowEdit)
        requires
            old(self).wf(),
            row_size_fits(edited_row(old(row)@, &edit)),
        ensures
            final(self).wf(),
            final(row)@ == edited_row(old(row)@, &edit),
            !row_derivable(final(row)@) ==> final(self)@ == old(self)@,
            row_derivable(final(row)@) ==> exists|nv: NamedValue|
                #[trigger] row_yields(final(row)@, nv) && final(self)@ == spec_update_value(
                    old(self)@,
                    final(row)@.name,
                    nv.value@,
                ),
    {
        match row.apply_edit(edit) {
            Some(nv) => {
                let ghost witness = nv;
                let ghost before = self@;
                self.update_environment_value(nv);
                proof {
                    assert(row_yields(row@, witness) && self@ == spec_update_value(
                        before,
                        row@.name,
                        witness.value@,
                    ));
                }
            },
            None => {},
        }
    }
}

/// Law: selecting a preset and then deselecting restores exactly the
/// environment and the displayed source text from immediately before the
/// selection, whatever the preset held.
pub proof fn lemma_select_deselect_round_trip(m: SessionModel, i: int)
    requires
        session_inv(m),
        m.selected is None,
        0 <= i < m.presets.len(),
    ensures
        spec_deselect(spec_select(m, i, displayed_source(m))).env == m.env,
        spec_deselect(spec_select(m, i, displayed_source(m))).user_env == m.user_env,
        displayed_source(spec_deselect(spec_select(m, i, displayed_source(m))))
            == displayed_source(m),
        session_inv(spec_deselect(spec_select(m, i, displayed_source(m)))),
{
}

} // verus!
