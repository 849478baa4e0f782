//! Reading YAML text into plain data.
//!
//! The YAML text of a Runefile is read by the `serde_yaml` library; the
//! compiler holds the result as a [`Yaml`] tree of plain values and does all
//! further work on that tree in verified code. What the reader returns for a
//! given text is named by the uninterpreted functions [`yaml_of_text`] and
//! [`yaml_value_model`]: the library's behaviour is trusted, everything
//! downstream of the tree is proved.

use serde_yaml::Value;
use vstd::prelude::*;

verus! {

/// A YAML value as plain data.
///
/// Floating-point scalars are kept as the reader's decimal text, not as
/// machine floats: the compiler only ever carries them through. Mapping
/// keys must be strings; entries keep document order.
#[derive(Debug, PartialEq)]
pub enum Yaml {
    Null,
    Bool(bool),
    Int(i64),
    /// A floating-point scalar, as its decimal text.
    Float(String),
    Str(String),
    List(Vec<Yaml>),
    /// A mapping with string keys, entries in document order.
    Mapping(Vec<(String, Yaml)>),
}

/// The mathematical shape of a [`Yaml`] tree.
pub enum YamlModel {
    Null,
    Bool(bool),
    Int(i64),
    Float(Seq<char>),
    Str(Seq<char>),
    List(Seq<YamlModel>),
    Mapping(Seq<(Seq<char>, YamlModel)>),
}

impl Yaml {
    /// The tree's mathematical shape.
    pub open spec fn model(self) -> YamlModel
        decreases self,
        via Self::model_decreases
    {
        match self {
            Yaml::Null => YamlModel::Null,
            Yaml::Bool(b) => YamlModel::Bool(b),
            Yaml::Int(i) => YamlModel::Int(i),
            Yaml::Float(t) => YamlModel::Float(t@),
            Yaml::Str(s) => YamlModel::Str(s@),
            Yaml::List(items) => YamlModel::List(models_of(items@)),
            Yaml::Mapping(entries) => YamlModel::Mapping(entry_models_of(entries@)),
        }
    }

    #[via_fn]
    proof fn model_decreases(self) {
        match self {
            Yaml::List(items) => {
                assert(decreases_to!(self => items));
                assert(decreases_to!(items => items@));
            },
            Yaml::Mapping(entries) => {
                assert(decreases_to!(self => entries));
                assert(decreases_to!(entries => entries@));
            },
            _ => {},
        }
    }
}

/// The shapes of the items of a YAML list.
pub open spec fn models_of(items: Seq<Yaml>) -> Seq<YamlModel>
    decreases items,
    via models_of_decreases
{
    if items.len() == 0 {
        Seq::empty()
    } else {
        seq![items[0].model()] + models_of(items.drop_first())
    }
}

#[via_fn]
proof fn models_of_decreases(items: Seq<Yaml>) {
    if items.len() > 0 {
        vstd::seq::axiom_seq_subrange_decreases(items, 1, items.len() as int);
        assert(items.drop_first() == items.subrange(1, items.len() as int));
    }
}

/// The shapes of the entries of a YAML mapping.
pub open spec fn entry_models_of(entries: Seq<(String, Yaml)>) -> Seq<(Seq<char>, YamlModel)>
    decreases entries,
    via entry_models_of_decreases
{
    if entries.len() == 0 {
        Seq::empty()
    } else {
        seq![(entries[0].0@, entries[0].1.model())] + entry_models_of(entries.drop_first())
    }
}

#[via_fn]
proof fn entry_models_of_decreases(entries: Seq<(String, Yaml)>) {
    if entries.len() > 0 {
        vstd::seq::axiom_seq_subrange_decreases(entries, 1, entries.len() as int);
        assert(entries.drop_first() == entries.subrange(1, entries.len() as int));
        assert(decreases_to!(entries => entries[0]));
        assert(decreases_to!(entries[0] => entries[0].1));
    }
}

/// `models_of` maps the list pointwise.
pub proof fn lemma_models_of(items: Seq<Yaml>)
    ensures
        models_of(items).len() == items.len(),
        forall|i: int| 0 <= i < items.len() ==> models_of(items)[i] == items[i].model(),
    decreases items.len(),
{
    if items.len() > 0 {
        lemma_models_of(items.drop_first());
        assert forall|i: int| 0 <= i < items.len() implies models_of(items)[i]
            == items[i].model() by {
            if i > 0 {
                assert(models_of(items)[i] == models_of(items.drop_first())[i - 1]);
                assert(items.drop_first()[i - 1] == items[i]);
            }
        }
    }
}

/// `entry_models_of` maps the entries pointwise.
pub proof fn lemma_entry_models_of(entries: Seq<(String, Yaml)>)
    ensures
        entry_models_of(entries).len() == entries.len(),
        forall|i: int|
            0 <= i < entries.len() ==> entry_models_of(entries)[i] == (
            entries[i].0@,
            entries[i].1.model(),
            ),
    decreases entries.len(),
{
    if entries.len() > 0 {
        lemma_entry_models_of(entries.drop_first());
        assert forall|i: int| 0 <= i < entries.len() implies entry_models_of(entries)[i] == (
            entries[i].0@,
            entries[i].1.model(),
        ) by {
            if i > 0 {
                assert(entry_models_of(entries)[i] == entry_models_of(entries.drop_first())[i
                    - 1]);
                assert(entries.drop_first()[i - 1] == entries[i]);
            }
        }
    }
}

/// Why reading YAML text failed.
#[derive(Debug, PartialEq)]
pub enum YamlError {
    /// The text is not valid YAML: the reader's message, and the byte
    /// offset in the text it points at.
    Syntax { message: String, offset: usize },
    /// The text is valid YAML but holds a shape the compiler does not
    /// accept: a tagged value, or a mapping key that is not a string.
    Unsupported,
}

/// The mathematical shape of a [`YamlError`].
pub enum YamlErrorModel {
    Syntax { message: Seq<char>, offset: usize },
    Unsupported,
}

impl View for YamlError {
    type V = YamlErrorModel;

    open spec fn view(&self) -> YamlErrorModel {
        match self {
            YamlError::Syntax { message, offset } => YamlErrorModel::Syntax {
                message: message@,
                offset: *offset,
            },
            YamlError::Unsupported => YamlErrorModel::Unsupported,
        }
    }
}

#[verifier::external_type_specification]
#[verifier::external_body]
pub struct ExYamlValue(serde_yaml::Value);

/// What this library reads off a `serde_yaml::Value` tree: integers,
/// floating-point scalars as their decimal text, strings, and sequences and
/// string-keyed mappings of the same; `None` where the tree holds a shape
/// the library does not accept.
pub uninterp spec fn yaml_value_model(v: serde_yaml::Value) -> Option<YamlModel>;

/// What this library's YAML reader yields on a text: the tree `serde_yaml`
/// parses, seen through [`yaml_value_model`], or the reader's error. The
/// result depends on the text alone.
pub uninterp spec fn yaml_of_text(s: Seq<char>) -> Result<YamlModel, YamlErrorModel>;

/// Relies on `serde_yaml::from_str`: the tree a YAML text denotes, or the
/// first syntax error with its byte offset, depends on the text alone.
#[verifier::external_body]
fn yaml_from_str(text: &str) -> (r: Result<serde_yaml::Value, YamlError>)
    ensures
        match r {
            Ok(v) => yaml_of_text(text@) == match yaml_value_model(v) {
                Some(y) => Ok::<YamlModel, YamlErrorModel>(y),
                None => Err::<YamlModel, YamlErrorModel>(YamlErrorModel::Unsupported),
            },
            Err(e) => yaml_of_text(text@) == Err::<YamlModel, YamlErrorModel>(e@) && e@ matches
                YamlErrorModel::Syntax { .. },
        },
{
    serde_yaml::from_str(text).map_err(|e| YamlError::Syntax {
        offset: e.location().map(|l| l.index()).unwrap_or(0),
        message: e.to_string(),
    })
}

/// Relies on `serde_yaml::Value`'s accessors (`as_i64`, `as_str`,
/// `Number`'s text form, sequence and mapping iteration): converts the tree
/// to plain data, one node for one, `None` on a tagged value or a
/// non-string mapping key.
#[verifier::external_body]
fn yaml_tree(v: &serde_yaml::Value) -> (r: Option<Yaml>)
    ensures
        match r {
            Some(y) => yaml_value_model(*v) == Some(y.model()),
            None => yaml_value_model(*v) is None,
        },
{
    Some(match v {
        Value::Null => Yaml::Null,
        Value::Bool(b) => Yaml::Bool(*b),
        Value::Number(n) => match n.as_i64() {
            Some(i) => Yaml::Int(i),
            None => Yaml::Float(n.to_string()),
        },
        Value::String(s) => Yaml::Str(s.clone()),
        Value::Sequence(s) => Yaml::List(s.iter().map(yaml_tree).collect::<Option<_>>()?),
        Value::Mapping(m) => Yaml::Mapping(m.iter().map(|(k, x)| Some((k.as_str()?.to_string(), yaml_tree(x)?))).collect::<Option<_>>()?),
        Value::Tagged(_) => None?,
    })
}

/// Read YAML text into a [`Yaml`] tree.
pub fn read_yaml(text: &str) -> (r: Result<Yaml, YamlError>)
    ensures
        match r {
            Ok(y) => yaml_of_text(text@) == Ok::<YamlModel, YamlErrorModel>(y.model()),
            Err(e) => yaml_of_text(text@) == Err::<YamlModel, YamlErrorModel>(e@),
        },
{
    match yaml_from_str(text) {
        Ok(v) => match yaml_tree(&v) {
            Some(y) => Ok(y),
            None => Err(YamlError::Unsupported),
        },
        Err(e) => Err(e),
    }
}

} // verus!
