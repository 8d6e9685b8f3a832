//! One environment input row: a name, a shape text and an optional fill
//! strategy. Any text is accepted into the name and shape fields; validity
//! is decided only when the row's current value is derived. The row
//! contributes a named value exactly when a strategy is chosen and the
//! shape text parses.

use crate::env::NamedValue;
use crate::shape::parse_shape;
use crate::shape::parse_shape_spec;
use crate::tensor::element_count;
use crate::tensor::generate;
use crate::tensor::in_random_range;
use crate::tensor::FillStrategy;
use crate::tensor::TensorModel;
use crate::tensor::FIXED_ONE;
use vstd::prelude::*;

verus! {

/// The mathematical state of a row.
pub struct RowModel {
    pub name: Seq<char>,
    pub shape_text: Seq<char>,
    pub fill_strategy: Option<FillStrategy>,
}

/// A user-editable declaration of one environment variable.
pub struct EnvironmentRow {
    pub name: String,
    pub shape_text: String,
    pub fill_strategy: Option<FillStrategy>,
}

impl View for EnvironmentRow {
    type V = RowModel;

    open spec fn view(&self) -> RowModel {
        RowModel {
            name: self.name@,
            shape_text: self.shape_text@,
            fill_strategy: self.fill_strategy,
        }
    }
}

/// One edit of a row: any string is accepted into the name or the shape
/// text; choosing a strategy can never unset it.
pub enum RowEdit {
    Name(String),
    ShapeText(String),
    Fill(FillStrategy),
}

/// The row state after an edit.
pub open spec fn edited_row(r: RowModel, e: &RowEdit) -> RowModel {
    match e {
        RowEdit::Name(s) => RowModel { name: s@, ..r },
        RowEdit::ShapeText(s) => RowModel { shape_text: s@, ..r },
        RowEdit::Fill(f) => RowModel { fill_strategy: Some(*f), ..r },
    }
}

/// The single validity gate: the row contributes exactly when a strategy
/// is chosen and the shape text parses.
pub open spec fn row_derivable(r: RowModel) -> bool {
    r.fill_strategy is Some && parse_shape_spec(r.shape_text) is Some
}

/// A tensor is one that the row's fill strategy can have produced for the
/// row's parsed shape: the exact zero or one fill, or any elements inside
/// the random band.
pub open spec fn fill_matches(t: TensorModel, dims: Seq<usize>, fill: FillStrategy) -> bool {
    &&& t.dims == dims
    &&& t.elems.len() == element_count(dims)
    &&& (fill is Zeros ==> forall|k: int| 0 <= k < t.elems.len() ==> t.elems[k] == 0)
    &&& (fill is Ones ==> forall|k: int| 0 <= k < t.elems.len() ==> t.elems[k] == FIXED_ONE)
    &&& (fill is Random ==> forall|k: int|
        0 <= k < t.elems.len() ==> in_random_range(#[trigger] t.elems[k]))
}

/// A named value the row can currently stand for.
pub open spec fn row_yields(r: RowModel, nv: NamedValue) -> bool {
    &&& row_derivable(r)
    &&& nv.name@ == r.name
    &&& (parse_shape_spec(r.shape_text) matches Some(dims) && fill_matches(
        nv.value@,
        dims,
        r.fill_strategy->0,
    ))
}

/// The derived element count of a row fits the platform's size type.
/// Derivation would otherwise have to allocate more elements than
/// addressable; callers check with `shape_element_count` first.
pub open spec fn row_size_fits(r: RowModel) -> bool {
    row_derivable(r) ==> element_count(parse_shape_spec(r.shape_text)->0) <= usize::MAX
}

impl EnvironmentRow {
    /// A fresh row: empty name, empty shape text, no strategy chosen.
    pub fn new() -> (r: EnvironmentRow)
        ensures
            r@.name.len() == 0,
            r@.shape_text.len() == 0,
            r@.fill_strategy is None,
    {
        EnvironmentRow { name: String::new(), shape_text: String::new(), fill_strategy: None }
    }

    /// Derive the row's current value. `None` exactly when no strategy is
    /// chosen or the shape text does not parse; otherwise the named value
    /// generated for the parsed shape.
    pub fn current_value(&self) -> (r: Option<NamedValue>)
        requires
            row_size_fits(self@),
        ensures
            r is Some <==> row_derivable(self@),
            r matches Some(nv) ==> row_yields(self@, nv) && nv.value.wf(),
    {
        let strategy = match self.fill_strategy {
            Some(s) => s,
            None => {
                return None;
            },
        };
        let dims = match parse_shape(self.shape_text.as_str()) {
            Some(d) => d,
            None => {
                return None;
            },
        };
        let value = generate(&dims, strategy);
        Some(NamedValue { name: self.name.clone(), value })
    }

    /// Apply one edit, then re-derive the current value; the caller must
    /// deliver a returned named value to the aggregator. Mirrors the
    /// row's event handling: every edit is accepted, and a notification
    /// goes out whenever the edited row derives a value.
    pub fn apply_edit(&mut self, edit: RowEdit) -> (r: Option<NamedValue>)
        requires
            row_size_fits(edited_row(old(self)@, &edit)),
        ensures
            final(self)@ == edited_row(old(self)@, &edit),
            r is Some <==> row_derivable(final(self)@),
            r matches Some(nv) ==> row_yields(final(self)@, nv) && nv.value.wf(),
    {
        match edit {
            RowEdit::Name(s) => {
                self.name = s;
            },
            RowEdit::ShapeText(s) => {
                self.shape_text = s;
            },
            RowEdit::Fill(f) => {
                self.fill_strategy = Some(f);
            },
        }
        self.current_value()
    }
}

} // verus!
