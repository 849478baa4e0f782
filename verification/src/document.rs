//! The surface form of a Runefile.
//!
//! A Runefile is a YAML mapping with an `image` entry (a dependency path
//! naming the base runtime image) and a `pipeline` entry (a mapping from
//! stage names to stages). [`Document::parse`] turns Runefile text into a
//! [`Document`]; everything past the YAML reader is verified against the
//! specification functions in this module.

use vstd::prelude::*;
use vstd::string::StrSliceExecFns;
use vstd::string::StringExecFns;

use crate::ordering::str_eq;
use crate::path::Path;
use crate::path::PathModel;
use crate::path::path_well_formed;
use crate::yaml::Yaml;
use crate::yaml::YamlError;
use crate::yaml::YamlErrorModel;
use crate::yaml::YamlModel;
use crate::yaml::entry_models_of;
use crate::yaml::lemma_entry_models_of;
use crate::yaml::lemma_models_of;
use crate::yaml::models_of;
use crate::yaml::read_yaml;
use crate::yaml::yaml_of_text;
use crate::diagnostics::Diagnostic;
use crate::diagnostics::Severity;
use crate::diagnostics::Span;

verus! {

// ---------------------------------------------------------------------------
// Surface types and their mathematical shapes
// ---------------------------------------------------------------------------

/// A tensor type: an element type name and its dimensions (empty for
/// scalar or unspecified).
#[derive(Debug, PartialEq)]
pub struct Type {
    pub ty: String,
    pub dimensions: Vec<usize>,
}

/// The mathematical shape of a [`Type`].
pub struct TypeModel {
    pub ty: Seq<char>,
    pub dimensions: Seq<usize>,
}

impl View for Type {
    type V = TypeModel;

    open spec fn view(&self) -> TypeModel {
        TypeModel { ty: self.ty@, dimensions: self.dimensions@ }
    }
}

/// An argument value: an integer, a floating-point scalar kept as its
/// decimal text, a string, or a list of values.
#[derive(Debug, PartialEq)]
pub enum ArgValue {
    Int(i64),
    /// A floating-point scalar, as its decimal text.
    Float(String),
    Str(String),
    List(Vec<ArgValue>),
}

/// The mathematical shape of a [`ArgValue`].
pub enum ArgValueModel {
    Int(i64),
    Float(Seq<char>),
    Str(Seq<char>),
    List(Seq<ArgValueModel>),
}

impl ArgValue {
    /// The value's mathematical shape.
    pub open spec fn model(self) -> ArgValueModel
        decreases self,
        via Self::model_decreases
    {
        match self {
            ArgValue::Int(i) => ArgValueModel::Int(i),
            ArgValue::Float(t) => ArgValueModel::Float(t@),
            ArgValue::Str(s) => ArgValueModel::Str(s@),
            ArgValue::List(items) => ArgValueModel::List(value_models_of(items@)),
        }
    }

    #[via_fn]
    proof fn model_decreases(self) {
        match self {
            ArgValue::List(items) => {
                assert(decreases_to!(self => items));
                assert(decreases_to!(items => items@));
            },
            _ => {},
        }
    }
}

impl View for ArgValue {
    type V = ArgValueModel;

    open spec fn view(&self) -> ArgValueModel {
        (*self).model()
    }
}

/// The shapes of a list of values.
pub open spec fn value_models_of(items: Seq<ArgValue>) -> Seq<ArgValueModel>
    decreases items,
    via value_models_of_decreases
{
    if items.len() == 0 {
        Seq::empty()
    } else {
        seq![items[0].model()] + value_models_of(items.drop_first())
    }
}

#[via_fn]
proof fn value_models_of_decreases(items: Seq<ArgValue>) {
    if items.len() > 0 {
        vstd::seq::axiom_seq_subrange_decreases(items, 1, items.len() as int);
        assert(items.drop_first() == items.subrange(1, items.len() as int));
    }
}

/// `value_models_of` maps the list pointwise.
pub proof fn lemma_value_models_of(items: Seq<ArgValue>)
    ensures
        value_models_of(items).len() == items.len(),
        forall|i: int| 0 <= i < items.len() ==> value_models_of(items)[i] == items[i].model(),
    decreases items.len(),
{
    if items.len() > 0 {
        lemma_value_models_of(items.drop_first());
        assert forall|i: int| 0 <= i < items.len() implies value_models_of(items)[i]
            == items[i].model() by {
            if i > 0 {
                assert(value_models_of(items)[i] == value_models_of(items.drop_first())[i - 1]);
                assert(items.drop_first()[i - 1] == items[i]);
            }
        }
    }
}

/// The view of an argument table: each key as its characters.
pub open spec fn arg_models_of(args: Seq<(String, ArgValue)>) -> Seq<(Seq<char>, ArgValueModel)> {
    args.map_values(|e: (String, ArgValue)| (e.0@, e.1.model()))
}

/// The view of a list of stage-name strings.
pub open spec fn strings_view(s: Seq<String>) -> Seq<Seq<char>> {
    s.map_values(|x: String| x@)
}

/// The view of a list of tensor types.
pub open spec fn types_view(s: Seq<Type>) -> Seq<TypeModel> {
    s.map_values(|t: Type| t@)
}

/// One stage of the pipeline. The set of keys in its YAML form decides the
/// variant: `model`, `proc-block`, `capability` or `out`, in that order.
#[derive(Debug, PartialEq)]
pub enum Stage {
    Model { model: String, inputs: Vec<String>, outputs: Vec<Type> },
    ProcBlock {
        proc_block: Path,
        inputs: Vec<String>,
        outputs: Vec<Type>,
        args: Vec<(String, ArgValue)>,
    },
    Capability { capability: String, outputs: Vec<Type>, args: Vec<(String, ArgValue)> },
    Out { out: String, inputs: Vec<String>, args: Vec<(String, ArgValue)> },
}

/// The mathematical shape of a [`Stage`].
pub enum StageModel {
    Model { model: Seq<char>, inputs: Seq<Seq<char>>, outputs: Seq<TypeModel> },
    ProcBlock {
        proc_block: PathModel,
        inputs: Seq<Seq<char>>,
        outputs: Seq<TypeModel>,
        args: Seq<(Seq<char>, ArgValueModel)>,
    },
    Capability { capability: Seq<char>, outputs: Seq<TypeModel>, args: Seq<(Seq<char>, ArgValueModel)> },
    Out { out: Seq<char>, inputs: Seq<Seq<char>>, args: Seq<(Seq<char>, ArgValueModel)> },
}

impl View for Stage {
    type V = StageModel;

    open spec fn view(&self) -> StageModel {
        match self {
            Stage::Model { model, inputs, outputs } => StageModel::Model {
                model: model@,
                inputs: strings_view(inputs@),
                outputs: types_view(outputs@),
            },
            Stage::ProcBlock { proc_block, inputs, outputs, args } => StageModel::ProcBlock {
                proc_block: proc_block@,
                inputs: strings_view(inputs@),
                outputs: types_view(outputs@),
                args: arg_models_of(args@),
            },
            Stage::Capability { capability, outputs, args } => StageModel::Capability {
                capability: capability@,
                outputs: types_view(outputs@),
                args: arg_models_of(args@),
            },
            Stage::Out { out, inputs, args } => StageModel::Out {
                out: out@,
                inputs: strings_view(inputs@),
                args: arg_models_of(args@),
            },
        }
    }
}

/// The parsed surface form of a Runefile: the base image and the pipeline's
/// stages, in document order, names distinct.
#[derive(Debug, PartialEq)]
pub struct Document {
    pub image: Path,
    pub pipeline: Vec<(String, Stage)>,
}

/// The mathematical shape of a [`Document`].
pub struct DocumentModel {
    pub image: PathModel,
    pub pipeline: Seq<(Seq<char>, StageModel)>,
}

/// The view of the pipeline table.
pub open spec fn pipeline_view(p: Seq<(String, Stage)>) -> Seq<(Seq<char>, StageModel)> {
    p.map_values(|e: (String, Stage)| (e.0@, e.1@))
}

impl View for Document {
    type V = DocumentModel;

    open spec fn view(&self) -> DocumentModel {
        DocumentModel { image: self.image@, pipeline: pipeline_view(self.pipeline@) }
    }
}

/// Why Runefile text was rejected.
#[derive(Debug, PartialEq)]
pub enum ParseError {
    /// The text is not valid YAML: the reader's message and the byte offset
    /// it points at.
    Syntax { message: String, offset: usize },
    /// The text is valid YAML but is not a Runefile of the expected shape.
    Structure { message: String },
}

/// The mathematical shape of a [`ParseError`].
pub enum ParseErrorModel {
    Syntax { message: Seq<char>, offset: usize },
    Structure { message: Seq<char> },
}

impl View for ParseError {
    type V = ParseErrorModel;

    open spec fn view(&self) -> ParseErrorModel {
        match self {
            ParseError::Syntax { message, offset } => ParseErrorModel::Syntax {
                message: message@,
                offset: *offset,
            },
            ParseError::Structure { message } => ParseErrorModel::Structure { message: message@ },
        }
    }
}

impl ParseError {
    /// Report this error as a diagnostic; a syntax error points at the byte
    /// offset the YAML reader gave.
    pub fn to_diagnostic(&self) -> (r: Diagnostic)
        ensures
            r.severity == Severity::Error,
            match self@ {
                ParseErrorModel::Syntax { message, offset } => r.message@ == message && r.primary
                    == Some(Span { start: offset, end: offset }),
                ParseErrorModel::Structure { message } => r.message@ == message && r.primary
                    is None,
            },
    {
        match self {
            ParseError::Syntax { message, offset } => Diagnostic {
                severity: Severity::Error,
                message: message.clone(),
                primary: Some(Span { start: *offset, end: *offset }),
                notes: Vec::new(),
            },
            ParseError::Structure { message } => Diagnostic {
                severity: Severity::Error,
                message: message.clone(),
                primary: None,
                notes: Vec::new(),
            },
        }
    }
}

// ---------------------------------------------------------------------------
// Well-formedness
// ---------------------------------------------------------------------------

/// Dimensions are positive and small enough to be written back as integers.
pub open spec fn type_well_formed(t: TypeModel) -> bool {
    forall|i: int|
        0 <= i < t.dimensions.len() ==> 0 < #[trigger] t.dimensions[i] as int <= i64::MAX as int
}

pub open spec fn types_well_formed(ts: Seq<TypeModel>) -> bool {
    forall|i: int| 0 <= i < ts.len() ==> type_well_formed(#[trigger] ts[i])
}

pub open spec fn stage_well_formed(s: StageModel) -> bool {
    match s {
        StageModel::Model { outputs, .. } => types_well_formed(outputs),
        StageModel::ProcBlock { proc_block, outputs, args, .. } => path_well_formed(proc_block)
            && types_well_formed(outputs) && keys_unique(args),
        StageModel::Capability { outputs, args, .. } => types_well_formed(outputs) && keys_unique(
            args,
        ),
        StageModel::Out { args, .. } => keys_unique(args),
    }
}

/// Stage names distinct, every component expressible in its written form.
pub open spec fn document_well_formed(d: DocumentModel) -> bool {
    &&& path_well_formed(d.image)
    &&& keys_unique(d.pipeline)
    &&& forall|i: int| 0 <= i < d.pipeline.len() ==> stage_well_formed(#[trigger] d.pipeline[i].1)
}

/// No two entries share a key.
pub open spec fn keys_unique<D>(entries: Seq<(Seq<char>, D)>) -> bool {
    forall|i: int, j: int| 0 <= i < j < entries.len() ==> (#[trigger] entries[i].0) != (
    #[trigger] entries[j].0)
}

/// Whether `k` occurs in `allowed`.
pub open spec fn key_in(k: Seq<char>, allowed: Seq<Seq<char>>) -> bool {
    exists|j: int| 0 <= j < allowed.len() && k == allowed[j]
}

/// Every key occurs in `allowed`.
pub open spec fn keys_allowed<D>(entries: Seq<(Seq<char>, D)>, allowed: Seq<Seq<char>>) -> bool {
    forall|i: int| 0 <= i < entries.len() ==> key_in((#[trigger] entries[i].0), allowed)
}

/// The value at key `k`; with distinct keys, the entry's value.
pub open spec fn spec_map_get(entries: Seq<(Seq<char>, YamlModel)>, k: Seq<char>) -> Option<
    YamlModel,
>
    decreases entries.len(),
{
    if entries.len() == 0 {
        None
    } else if entries.last().0 == k {
        Some(entries.last().1)
    } else {
        spec_map_get(entries.drop_last(), k)
    }
}

// ---------------------------------------------------------------------------
// Specification of the Runefile shape
// ---------------------------------------------------------------------------

/// What an argument value may be read from: integers, floats, strings and
/// lists of the same.
pub open spec fn spec_value_from_yaml(y: YamlModel) -> Option<ArgValueModel>
    decreases y,
{
    match y {
        YamlModel::Int(i) => Some(ArgValueModel::Int(i)),
        YamlModel::Float(t) => Some(ArgValueModel::Float(t)),
        YamlModel::Str(s) => Some(ArgValueModel::Str(s)),
        YamlModel::List(items) => match spec_values_from_yaml(items) {
            Some(vs) => Some(ArgValueModel::List(vs)),
            None => None,
        },
        _ => None,
    }
}

/// All items as values, or nothing if any fails.
pub open spec fn spec_values_from_yaml(items: Seq<YamlModel>) -> Option<Seq<ArgValueModel>>
    decreases items,
    via spec_values_from_yaml_decreases
{
    if items.len() == 0 {
        Some(Seq::empty())
    } else {
        match (spec_values_from_yaml(items.drop_last()), spec_value_from_yaml(items.last())) {
            (Some(vs), Some(v)) => Some(vs.push(v)),
            _ => None,
        }
    }
}

#[via_fn]
proof fn spec_values_from_yaml_decreases(items: Seq<YamlModel>) {
    if items.len() > 0 {
        vstd::seq::axiom_seq_subrange_decreases(items, 0, items.len() - 1);
        assert(items.drop_last() == items.subrange(0, items.len() - 1));
    }
}

/// Failing at any prefix fails the whole list.
proof fn lemma_values_prefix_none(items: Seq<YamlModel>, i: int)
    requires
        0 <= i <= items.len(),
        spec_values_from_yaml(items.take(i)) is None,
    ensures
        spec_values_from_yaml(items) is None,
    decreases items.len() - i,
{
    if i < items.len() {
        assert(items.take(i + 1).drop_last() =~= items.take(i));
        lemma_values_prefix_none(items, i + 1);
    } else {
        assert(items.take(i) =~= items);
    }
}

/// A list of stage names: every item a string.
pub open spec fn spec_strings_from_yaml(items: Seq<YamlModel>) -> Option<Seq<Seq<char>>>
    decreases items.len(),
{
    if items.len() == 0 {
        Some(Seq::empty())
    } else {
        match (spec_strings_from_yaml(items.drop_last()), items.last()) {
            (Some(ss), YamlModel::Str(s)) => Some(ss.push(s)),
            _ => None,
        }
    }
}

proof fn lemma_strings_prefix_none(items: Seq<YamlModel>, i: int)
    requires
        0 <= i <= items.len(),
        spec_strings_from_yaml(items.take(i)) is None,
    ensures
        spec_strings_from_yaml(items) is None,
    decreases items.len() - i,
{
    if i < items.len() {
        assert(items.take(i + 1).drop_last() =~= items.take(i));
        lemma_strings_prefix_none(items, i + 1);
    } else {
        assert(items.take(i) =~= items);
    }
}

/// Dimensions: positive integers that fit a `usize`.
pub open spec fn spec_dims_from_yaml(items: Seq<YamlModel>) -> Option<Seq<usize>>
    decreases items.len(),
{
    if items.len() == 0 {
        Some(Seq::empty())
    } else {
        match (spec_dims_from_yaml(items.drop_last()), items.last()) {
            (Some(ds), YamlModel::Int(d)) => if 0 < d && d as int <= usize::MAX as int {
                Some(ds.push(d as usize))
            } else {
                None
            },
            _ => None,
        }
    }
}

proof fn lemma_dims_prefix_none(items: Seq<YamlModel>, i: int)
    requires
        0 <= i <= items.len(),
        spec_dims_from_yaml(items.take(i)) is None,
    ensures
        spec_dims_from_yaml(items) is None,
    decreases items.len() - i,
{
    if i < items.len() {
        assert(items.take(i + 1).drop_last() =~= items.take(i));
        lemma_dims_prefix_none(items, i + 1);
    } else {
        assert(items.take(i) =~= items);
    }
}

/// A tensor type: a mapping with a `type` string and optional `dimensions`.
pub open spec fn spec_type_from_yaml(y: YamlModel) -> Option<TypeModel> {
    match y {
        YamlModel::Mapping(entries) => {
            if !keys_unique(entries) || !keys_allowed(entries, seq!["type"@, "dimensions"@]) {
                None
            } else {
                match spec_map_get(entries, "type"@) {
                    Some(YamlModel::Str(ty)) => match spec_map_get(entries, "dimensions"@) {
                        None => Some(TypeModel { ty, dimensions: Seq::empty() }),
                        Some(YamlModel::List(items)) => match spec_dims_from_yaml(items) {
                            Some(ds) => Some(TypeModel { ty, dimensions: ds }),
                            None => None,
                        },
                        Some(_) => None,
                    },
                    _ => None,
                }
            }
        },
        _ => None,
    }
}

/// A list of tensor types.
pub open spec fn spec_types_from_yaml(items: Seq<YamlModel>) -> Option<Seq<TypeModel>>
    decreases items.len(),
{
    if items.len() == 0 {
        Some(Seq::empty())
    } else {
        match (spec_types_from_yaml(items.drop_last()), spec_type_from_yaml(items.last())) {
            (Some(ts), Some(t)) => Some(ts.push(t)),
            _ => None,
        }
    }
}

proof fn lemma_types_prefix_none(items: Seq<YamlModel>, i: int)
    requires
        0 <= i <= items.len(),
        spec_types_from_yaml(items.take(i)) is None,
    ensures
        spec_types_from_yaml(items) is None,
    decreases items.len() - i,
{
    if i < items.len() {
        assert(items.take(i + 1).drop_last() =~= items.take(i));
        lemma_types_prefix_none(items, i + 1);
    } else {
        assert(items.take(i) =~= items);
    }
}

/// Arguments: a mapping with distinct keys whose values are argument values.
pub open spec fn spec_args_from_entries(entries: Seq<(Seq<char>, YamlModel)>) -> Option<
    Seq<(Seq<char>, ArgValueModel)>,
>
    decreases entries.len(),
{
    if entries.len() == 0 {
        Some(Seq::empty())
    } else {
        match (
            spec_args_from_entries(entries.drop_last()),
            spec_value_from_yaml(entries.last().1),
        ) {
            (Some(args), Some(v)) => Some(args.push((entries.last().0, v))),
            _ => None,
        }
    }
}

proof fn lemma_args_prefix_none(entries: Seq<(Seq<char>, YamlModel)>, i: int)
    requires
        0 <= i <= entries.len(),
        spec_args_from_entries(entries.take(i)) is None,
    ensures
        spec_args_from_entries(entries) is None,
    decreases entries.len() - i,
{
    if i < entries.len() {
        assert(entries.take(i + 1).drop_last() =~= entries.take(i));
        lemma_args_prefix_none(entries, i + 1);
    } else {
        assert(entries.take(i) =~= entries);
    }
}

pub open spec fn spec_args_from_yaml(y: Option<YamlModel>) -> Option<Seq<(Seq<char>, ArgValueModel)>> {
    match y {
        None => Some(Seq::empty()),
        Some(YamlModel::Mapping(entries)) => if keys_unique(entries) {
            spec_args_from_entries(entries)
        } else {
            None
        },
        Some(_) => None,
    }
}

pub open spec fn spec_inputs_from_yaml(y: Option<YamlModel>) -> Option<Seq<Seq<char>>> {
    match y {
        None => Some(Seq::empty()),
        Some(YamlModel::List(items)) => spec_strings_from_yaml(items),
        Some(_) => None,
    }
}

pub open spec fn spec_outputs_from_yaml(y: Option<YamlModel>) -> Option<Seq<TypeModel>> {
    match y {
        None => Some(Seq::empty()),
        Some(YamlModel::List(items)) => spec_types_from_yaml(items),
        Some(_) => None,
    }
}

/// One stage: the set of keys decides the variant (`model`, `proc-block`,
/// `capability`, `out`, first match wins); keys outside the variant's set
/// are rejected.
pub open spec fn spec_stage_from_yaml(y: YamlModel) -> Option<StageModel> {
    match y {
        YamlModel::Mapping(entries) => {
            if !keys_unique(entries) {
                None
            } else if spec_map_get(entries, "model"@) is Some {
                if !keys_allowed(entries, seq!["model"@, "inputs"@, "outputs"@]) {
                    None
                } else {
                    match (
                        spec_map_get(entries, "model"@),
                        spec_inputs_from_yaml(spec_map_get(entries, "inputs"@)),
                        spec_outputs_from_yaml(spec_map_get(entries, "outputs"@)),
                    ) {
                        (Some(YamlModel::Str(model)), Some(inputs), Some(outputs)) => Some(
                            StageModel::Model { model, inputs, outputs },
                        ),
                        _ => None,
                    }
                }
            } else if spec_map_get(entries, "proc-block"@) is Some {
                if !keys_allowed(
                    entries,
                    seq!["proc-block"@, "inputs"@, "outputs"@, "args"@],
                ) {
                    None
                } else {
                    match (
                        spec_map_get(entries, "proc-block"@),
                        spec_inputs_from_yaml(spec_map_get(entries, "inputs"@)),
                        spec_outputs_from_yaml(spec_map_get(entries, "outputs"@)),
                        spec_args_from_yaml(spec_map_get(entries, "args"@)),
                    ) {
                        (
                            Some(YamlModel::Str(pb)),
                            Some(inputs),
                            Some(outputs),
                            Some(args),
                        ) => match crate::path::spec_parse(pb) {
                            Some(proc_block) => Some(
                                StageModel::ProcBlock { proc_block, inputs, outputs, args },
                            ),
                            None => None,
                        },
                        _ => None,
                    }
                }
            } else if spec_map_get(entries, "capability"@) is Some {
                if !keys_allowed(entries, seq!["capability"@, "outputs"@, "args"@]) {
                    None
                } else {
                    match (
                        spec_map_get(entries, "capability"@),
                        spec_outputs_from_yaml(spec_map_get(entries, "outputs"@)),
                        spec_args_from_yaml(spec_map_get(entries, "args"@)),
                    ) {
                        (Some(YamlModel::Str(capability)), Some(outputs), Some(args)) => Some(
                            StageModel::Capability { capability, outputs, args },
                        ),
                        _ => None,
                    }
                }
            } else if spec_map_get(entries, "out"@) is Some {
                if !keys_allowed(entries, seq!["out"@, "inputs"@, "args"@]) {
                    None
                } else {
                    match (
                        spec_map_get(entries, "out"@),
                        spec_inputs_from_yaml(spec_map_get(entries, "inputs"@)),
                        spec_args_from_yaml(spec_map_get(entries, "args"@)),
                    ) {
                        (Some(YamlModel::Str(out)), Some(inputs), Some(args)) => Some(
                            StageModel::Out { out, inputs, args },
                        ),
                        _ => None,
                    }
                }
            } else {
                None
            }
        },
        _ => None,
    }
}

/// All pipeline entries as stages; on failure, the name of the first stage
/// that is not well-formed.
pub open spec fn spec_pipeline_from_entries(entries: Seq<(Seq<char>, YamlModel)>) -> Result<
    Seq<(Seq<char>, StageModel)>,
    Seq<char>,
>
    decreases entries.len(),
{
    if entries.len() == 0 {
        Ok(Seq::empty())
    } else {
        match spec_pipeline_from_entries(entries.drop_last()) {
            Err(name) => Err(name),
            Ok(stages) => match spec_stage_from_yaml(entries.last().1) {
                Some(st) => Ok(stages.push((entries.last().0, st))),
                None => Err(entries.last().0),
            },
        }
    }
}

/// The Runefile shape: a mapping with `image`, `pipeline` and optionally
/// `version`.
pub open spec fn spec_document_from_yaml(y: YamlModel) -> Result<DocumentModel, ParseErrorModel> {
    match y {
        YamlModel::Mapping(entries) => {
            if !keys_unique(entries) {
                Err(spec_structure_error("the Runefile has a duplicate key"@))
            } else if !keys_allowed(entries, seq!["image"@, "pipeline"@, "version"@]) {
                Err(spec_structure_error("the Runefile has an unknown top-level key"@))
            } else {
                match spec_map_get(entries, "image"@) {
                    None => Err(spec_structure_error("the Runefile needs an \"image\" entry"@)),
                    Some(YamlModel::Str(img)) => match crate::path::spec_parse(img) {
                        None => Err(
                            spec_structure_error(
                                "the \"image\" entry must be a dependency path"@,
                            ),
                        ),
                        Some(image) => match spec_map_get(entries, "pipeline"@) {
                            None => Err(
                                spec_structure_error(
                                    "the Runefile needs a \"pipeline\" entry"@,
                                ),
                            ),
                            Some(YamlModel::Mapping(p_entries)) => {
                                if !keys_unique(p_entries) {
                                    Err(
                                        spec_structure_error(
                                            "the pipeline declares a stage name twice"@,
                                        ),
                                    )
                                } else {
                                    match spec_pipeline_from_entries(p_entries) {
                                        Err(name) => Err(
                                            spec_structure_error(
                                                "the stage \""@ + name
                                                    + "\" is not well-formed"@,
                                            ),
                                        ),
                                        Ok(pipeline) => Ok(DocumentModel { image, pipeline }),
                                    }
                                }
                            },
                            Some(_) => Err(
                                spec_structure_error(
                                    "the \"pipeline\" entry must be a mapping from stage names to stages"@,
                                ),
                            ),
                        },
                    },
                    Some(_) => Err(
                        spec_structure_error("the \"image\" entry must be a dependency path"@),
                    ),
                }
            }
        },
        _ => Err(spec_structure_error("the Runefile must be a YAML mapping"@)),
    }
}

pub open spec fn spec_structure_error(m: Seq<char>) -> ParseErrorModel {
    ParseErrorModel::Structure { message: m }
}

/// What parsing Runefile text yields: the YAML reader's verdict, then the
/// Runefile shape.
pub open spec fn spec_parse_document(t: Seq<char>) -> Result<DocumentModel, ParseErrorModel> {
    match yaml_of_text(t) {
        Err(YamlErrorModel::Syntax { message, offset }) => Err(
            ParseErrorModel::Syntax { message, offset },
        ),
        Err(YamlErrorModel::Unsupported) => Err(
            spec_structure_error("the Runefile holds YAML the compiler does not accept"@),
        ),
        Ok(y) => spec_document_from_yaml(y),
    }
}

// ---------------------------------------------------------------------------
// The parser
// ---------------------------------------------------------------------------

/// The value at key `k` among a mapping's entries.
fn map_get<'a>(entries: &'a Vec<(String, Yaml)>, k: &str) -> (r: Option<&'a Yaml>)
    ensures
        match r {
            Some(y) => spec_map_get(entry_models_of(entries@), k@) == Some((*y).model()),
            None => spec_map_get(entry_models_of(entries@), k@) is None,
        },
{
    proof {
        lemma_entry_models_of(entries@);
    }
    let ghost em = entry_models_of(entries@);
    let n = entries.len();
    let mut found: Option<usize> = None;
    let mut i: usize = 0;
    while i < n
        invariant
            0 <= i <= n,
            n == entries@.len(),
            em == entry_models_of(entries@),
            em.len() == n,
            forall|j: int| 0 <= j < n ==> em[j] == (entries@[j].0@, entries@[j].1.model()),
            match found {
                Some(fi) => fi < i && spec_map_get(em.take(i as int), k@) == Some(
                    em[fi as int].1,
                ),
                None => spec_map_get(em.take(i as int), k@) is None,
            },
        decreases n - i,
    {
        proof {
            assert(em.take(i as int + 1).drop_last() =~= em.take(i as int));
            assert(em.take(i as int + 1).last() == em[i as int]);
        }
        if str_eq(entries[i].0.as_str(), k) {
            found = Some(i);
        }
        i += 1;
    }
    proof {
        assert(em.take(n as int) =~= em);
    }
    match found {
        Some(fi) => Some(&entries[fi].1),
        None => None,
    }
}

/// Whether a mapping's keys are pairwise distinct.
fn check_keys_unique(entries: &Vec<(String, Yaml)>) -> (r: bool)
    ensures
        r == keys_unique(entry_models_of(entries@)),
{
    proof {
        lemma_entry_models_of(entries@);
    }
    let ghost em = entry_models_of(entries@);
    let n = entries.len();
    let mut i: usize = 0;
    while i < n
        invariant
            0 <= i <= n,
            n == entries@.len(),
            em == entry_models_of(entries@),
            em.len() == n,
            forall|j: int| 0 <= j < n ==> em[j] == (entries@[j].0@, entries@[j].1.model()),
            forall|p: int, q: int| 0 <= p < q < n && p < i ==> em[p].0 != em[q].0,
        decreases n - i,
    {
        let mut j: usize = i + 1;
        while j < n
            invariant
                0 <= i < j <= n,
                n == entries@.len(),
                em == entry_models_of(entries@),
                em.len() == n,
                forall|jj: int| 0 <= jj < n ==> em[jj] == (entries@[jj].0@, entries@[jj].1.model()),
                forall|q: int| i < q < j ==> em[i as int].0 != em[q].0,
            decreases n - j,
        {
            if str_eq(entries[i].0.as_str(), entries[j].0.as_str()) {
                proof {
                    assert(em[i as int].0 == em[j as int].0);
                }
                return false;
            }
            j += 1;
        }
        i += 1;
    }
    true
}

/// Whether every key of a mapping is one of `allowed`.
fn check_keys_allowed(entries: &Vec<(String, Yaml)>, allowed: &[&str]) -> (r: bool)
    ensures
        r == keys_allowed(entry_models_of(entries@), allowed@.map_values(|s: &str| s@)),
{
    proof {
        lemma_entry_models_of(entries@);
    }
    let ghost em = entry_models_of(entries@);
    let ghost al = allowed@.map_values(|s: &str| s@);
    let n = entries.len();
    let m = allowed.len();
    let mut i: usize = 0;
    while i < n
        invariant
            0 <= i <= n,
            n == entries@.len(),
            m == allowed@.len(),
            em == entry_models_of(entries@),
            al == allowed@.map_values(|s: &str| s@),
            em.len() == n,
            al.len() == m,
            forall|j: int| 0 <= j < n ==> em[j] == (entries@[j].0@, entries@[j].1.model()),
            forall|p: int| 0 <= p < i ==> key_in((#[trigger] em[p].0), al),
        decreases n - i,
    {
        let mut j: usize = 0;
        let mut ok = false;
        while j < m
            invariant
                0 <= i < n,
                0 <= j <= m,
                n == entries@.len(),
                m == allowed@.len(),
                em == entry_models_of(entries@),
                al == allowed@.map_values(|s: &str| s@),
                em.len() == n,
                al.len() == m,
                forall|jj: int| 0 <= jj < n ==> em[jj] == (entries@[jj].0@, entries@[jj].1.model()),
                ok ==> key_in(em[i as int].0, al),
                !ok ==> forall|q: int| 0 <= q < j ==> em[i as int].0 != al[q],
            decreases m - j,
        {
            if !ok && str_eq(entries[i].0.as_str(), allowed[j]) {
                proof {
                    assert(al[j as int] == allowed@[j as int]@);
                    assert(key_in(em[i as int].0, al));
                }
                ok = true;
            }
            j += 1;
        }
        if !ok {
            proof {
                assert(!key_in(em[i as int].0, al));
                assert(!keys_allowed(em, al));
            }
            return false;
        }
        i += 1;
    }
    true
}

impl ArgValue {
    /// Read an argument value off a YAML tree.
    pub fn from_yaml(y: &Yaml) -> (r: Option<ArgValue>)
        ensures
            match r {
                Some(v) => spec_value_from_yaml((*y).model()) == Some(v@),
                None => spec_value_from_yaml((*y).model()) is None,
            },
        decreases *y,
    {
        match y {
            Yaml::Int(i) => Some(ArgValue::Int(*i)),
            Yaml::Float(t) => Some(ArgValue::Float(t.clone())),
            Yaml::Str(s) => Some(ArgValue::Str(s.clone())),
            Yaml::List(items) => {
                proof {
                    lemma_models_of(items@);
                }
                let ghost ym = models_of(items@);
                let n = items.len();
                let mut out: Vec<ArgValue> = Vec::new();
                let mut i: usize = 0;
                while i < n
                    invariant
                        0 <= i <= n,
                        n == items@.len(),
                        ym == models_of(items@),
                        ym.len() == n,
                        forall|j: int| 0 <= j < n ==> ym[j] == items@[j].model(),
                        spec_values_from_yaml(ym.take(i as int)) == Some(value_models_of(out@)),
                        (*y).model() == YamlModel::List(ym),
                        decreases_to!(*y => items@),
                    decreases n - i,
                {
                    proof {
                        assert(ym.take(i as int + 1).drop_last() =~= ym.take(i as int));
                        assert(ym.take(i as int + 1).last() == ym[i as int]);
                        assert(decreases_to!(items@ => items@[i as int]));
                    }
                    let ghost prev = out@;
                    match ArgValue::from_yaml(&items[i]) {
                        Some(v) => {
                            out.push(v);
                            proof {
                                lemma_value_models_of(prev);
                                lemma_value_models_of(out@);
                                assert(value_models_of(out@) =~= value_models_of(prev).push(
                                    v@,
                                ));
                            }
                        },
                        None => {
                            proof {
                                assert(spec_values_from_yaml(ym.take(i as int + 1)) is None);
                                lemma_values_prefix_none(ym, i as int + 1);
                                assert((*y).model() == YamlModel::List(ym));
                            }
                            return None;
                        },
                    }
                    i += 1;
                }
                proof {
                    assert(ym.take(n as int) =~= ym);
                }
                Some(ArgValue::List(out))
            },
            _ => None,
        }
    }
}

/// Read a list of stage names off a YAML list.
fn strings_from_yaml(items: &Vec<Yaml>) -> (r: Option<Vec<String>>)
    ensures
        match r {
            Some(ss) => spec_strings_from_yaml(models_of(items@)) == Some(strings_view(ss@)),
            None => spec_strings_from_yaml(models_of(items@)) is None,
        },
{
    proof {
        lemma_models_of(items@);
    }
    let ghost ym = models_of(items@);
    let n = items.len();
    let mut out: Vec<String> = Vec::new();
    proof {
        assert(strings_view(out@) =~= Seq::<Seq<char>>::empty());
    }
    let mut i: usize = 0;
    while i < n
        invariant
            0 <= i <= n,
            n == items@.len(),
            ym == models_of(items@),
            ym.len() == n,
            forall|j: int| 0 <= j < n ==> ym[j] == items@[j].model(),
            spec_strings_from_yaml(ym.take(i as int)) == Some(strings_view(out@)),
        decreases n - i,
    {
        proof {
            assert(ym.take(i as int + 1).drop_last() =~= ym.take(i as int));
            assert(ym.take(i as int + 1).last() == ym[i as int]);
        }
        let ghost prev = out@;
        match &items[i] {
            Yaml::Str(s) => {
                out.push(s.clone());
                proof {
                    assert(strings_view(out@) =~= strings_view(prev).push(s@));
                }
            },
            _ => {
                proof {
                    lemma_strings_prefix_none(ym, i as int + 1);
                }
                return None;
            },
        }
        i += 1;
    }
    proof {
        assert(ym.take(n as int) =~= ym);
    }
    Some(out)
}

/// Read tensor dimensions off a YAML list: positive integers that fit.
fn dims_from_yaml(items: &Vec<Yaml>) -> (r: Option<Vec<usize>>)
    ensures
        match r {
            Some(ds) => spec_dims_from_yaml(models_of(items@)) == Some(ds@) && forall|i: int|
                0 <= i < ds@.len() ==> 0 < #[trigger] ds@[i] as int <= i64::MAX as int,
            None => spec_dims_from_yaml(models_of(items@)) is None,
        },
{
    proof {
        lemma_models_of(items@);
    }
    let ghost ym = models_of(items@);
    let n = items.len();
    let mut out: Vec<usize> = Vec::new();
    let mut i: usize = 0;
    while i < n
        invariant
            0 <= i <= n,
            n == items@.len(),
            ym == models_of(items@),
            ym.len() == n,
            forall|j: int| 0 <= j < n ==> ym[j] == items@[j].model(),
            spec_dims_from_yaml(ym.take(i as int)) == Some(out@),
            forall|j: int| 0 <= j < out@.len() ==> 0 < #[trigger] out@[j] as int <= i64::MAX as int,
        decreases n - i,
    {
        proof {
            assert(ym.take(i as int + 1).drop_last() =~= ym.take(i as int));
            assert(ym.take(i as int + 1).last() == ym[i as int]);
        }
        match &items[i] {
            Yaml::Int(d) => {
                let d = *d;
                if d <= 0 || (d as u128) > (usize::MAX as u128) {
                    proof {
                        lemma_dims_prefix_none(ym, i as int + 1);
                    }
                    return None;
                }
                out.push(d as usize);
            },
            _ => {
                proof {
                    lemma_dims_prefix_none(ym, i as int + 1);
                }
                return None;
            },
        }
        i += 1;
    }
    proof {
        assert(ym.take(n as int) =~= ym);
    }
    Some(out)
}

impl Type {
    /// Read a tensor type off a YAML mapping.
    pub fn from_yaml(y: &Yaml) -> (r: Option<Type>)
        ensures
            match r {
                Some(t) => spec_type_from_yaml((*y).model()) == Some(t@) && type_well_formed(t@),
                None => spec_type_from_yaml((*y).model()) is None,
            },
    {
        match y {
            Yaml::Mapping(entries) => {
                if !check_keys_unique(entries) {
                    return None;
                }
                let allowed = ["type", "dimensions"];
                if !check_keys_allowed(entries, &allowed) {
                    proof {
                        reveal_strlit("type");
                        reveal_strlit("dimensions");
                        assert(allowed@.map_values(|s: &str| s@) =~= seq!["type"@, "dimensions"@]);
                    }
                    return None;
                }
                proof {
                    reveal_strlit("type");
                    reveal_strlit("dimensions");
                    assert(allowed@.map_values(|s: &str| s@) =~= seq!["type"@, "dimensions"@]);
                }
                let ty = match map_get(entries, "type") {
                    Some(Yaml::Str(t)) => t.clone(),
                    _ => {
                        return None;
                    },
                };
                let dimensions = match map_get(entries, "dimensions") {
                    None => Vec::new(),
                    Some(Yaml::List(items)) => match dims_from_yaml(items) {
                        Some(ds) => ds,
                        None => {
                            return None;
                        },
                    },
                    Some(_) => {
                        return None;
                    },
                };
                Some(Type { ty, dimensions })
            },
            _ => None,
        }
    }
}

/// Read a list of tensor types off a YAML list.
fn types_from_yaml(items: &Vec<Yaml>) -> (r: Option<Vec<Type>>)
    ensures
        match r {
            Some(ts) => spec_types_from_yaml(models_of(items@)) == Some(types_view(ts@))
                && types_well_formed(types_view(ts@)),
            None => spec_types_from_yaml(models_of(items@)) is None,
        },
{
    proof {
        lemma_models_of(items@);
    }
    let ghost ym = models_of(items@);
    let n = items.len();
    let mut out: Vec<Type> = Vec::new();
    proof {
        assert(types_view(out@) =~= Seq::<TypeModel>::empty());
    }
    let mut i: usize = 0;
    while i < n
        invariant
            0 <= i <= n,
            n == items@.len(),
            ym == models_of(items@),
            ym.len() == n,
            forall|j: int| 0 <= j < n ==> ym[j] == items@[j].model(),
            spec_types_from_yaml(ym.take(i as int)) == Some(types_view(out@)),
            types_well_formed(types_view(out@)),
        decreases n - i,
    {
        proof {
            assert(ym.take(i as int + 1).drop_last() =~= ym.take(i as int));
            assert(ym.take(i as int + 1).last() == ym[i as int]);
        }
        let ghost prev = out@;
        match Type::from_yaml(&items[i]) {
            Some(t) => {
                out.push(t);
                proof {
                    assert(types_view(out@) =~= types_view(prev).push(out@.last()@));
                }
            },
            None => {
                proof {
                    lemma_types_prefix_none(ym, i as int + 1);
                }
                return None;
            },
        }
        i += 1;
    }
    proof {
        assert(ym.take(n as int) =~= ym);
    }
    Some(out)
}

/// Read an argument table off a YAML mapping's entries.
fn args_from_entries(entries: &Vec<(String, Yaml)>) -> (r: Option<Vec<(String, ArgValue)>>)
    ensures
        match r {
            Some(args) => spec_args_from_entries(entry_models_of(entries@)) == Some(
                arg_models_of(args@),
            ),
            None => spec_args_from_entries(entry_models_of(entries@)) is None,
        },
{
    proof {
        lemma_entry_models_of(entries@);
    }
    let ghost em = entry_models_of(entries@);
    let n = entries.len();
    let mut out: Vec<(String, ArgValue)> = Vec::new();
    proof {
        assert(arg_models_of(out@) =~= Seq::<(Seq<char>, ArgValueModel)>::empty());
    }
    let mut i: usize = 0;
    while i < n
        invariant
            0 <= i <= n,
            n == entries@.len(),
            em == entry_models_of(entries@),
            em.len() == n,
            forall|j: int| 0 <= j < n ==> em[j] == (entries@[j].0@, entries@[j].1.model()),
            spec_args_from_entries(em.take(i as int)) == Some(arg_models_of(out@)),
        decreases n - i,
    {
        proof {
            assert(em.take(i as int + 1).drop_last() =~= em.take(i as int));
            assert(em.take(i as int + 1).last() == em[i as int]);
        }
        let ghost prev = out@;
        match ArgValue::from_yaml(&entries[i].1) {
            Some(v) => {
                let key = entries[i].0.clone();
                out.push((key, v));
                proof {
                    assert(arg_models_of(out@) =~= arg_models_of(prev).push(
                        (out@.last().0@, out@.last().1.model()),
                    ));
                }
            },
            None => {
                proof {
                    lemma_args_prefix_none(em, i as int + 1);
                }
                return None;
            },
        }
        i += 1;
    }
    proof {
        assert(em.take(n as int) =~= em);
    }
    Some(out)
}

/// The `inputs` entry: absent means none.
fn inputs_opt(y: Option<&Yaml>) -> (r: Option<Vec<String>>)
    ensures
        ({
            let ym = match y {
                Some(v) => Some((*v).model()),
                None => None::<YamlModel>,
            };
            match r {
                Some(ss) => spec_inputs_from_yaml(ym) == Some(strings_view(ss@)),
                None => spec_inputs_from_yaml(ym) is None,
            }
        }),
{
    match y {
        None => {
            proof {
                assert(strings_view(Seq::<String>::empty()) =~= Seq::<Seq<char>>::empty());
            }
            Some(Vec::new())
        },
        Some(Yaml::List(items)) => strings_from_yaml(items),
        Some(_) => None,
    }
}

/// The `outputs` entry: absent means none.
fn outputs_opt(y: Option<&Yaml>) -> (r: Option<Vec<Type>>)
    ensures
        ({
            let ym = match y {
                Some(v) => Some((*v).model()),
                None => None::<YamlModel>,
            };
            match r {
                Some(ts) => spec_outputs_from_yaml(ym) == Some(types_view(ts@))
                    && types_well_formed(types_view(ts@)),
                None => spec_outputs_from_yaml(ym) is None,
            }
        }),
{
    match y {
        None => {
            proof {
                assert(types_view(Seq::<Type>::empty()) =~= Seq::<TypeModel>::empty());
            }
            Some(Vec::new())
        },
        Some(Yaml::List(items)) => types_from_yaml(items),
        Some(_) => None,
    }
}

/// The `args` entry: absent means none; keys must be distinct.
fn args_opt(y: Option<&Yaml>) -> (r: Option<Vec<(String, ArgValue)>>)
    ensures
        ({
            let ym = match y {
                Some(v) => Some((*v).model()),
                None => None::<YamlModel>,
            };
            match r {
                Some(args) => spec_args_from_yaml(ym) == Some(arg_models_of(args@))
                    && keys_unique(arg_models_of(args@)),
                None => spec_args_from_yaml(ym) is None,
            }
        }),
{
    match y {
        None => {
            proof {
                assert(arg_models_of(Seq::<(String, ArgValue)>::empty()) =~= Seq::<
                    (Seq<char>, ArgValueModel),
                >::empty());
            }
            Some(Vec::new())
        },
        Some(Yaml::Mapping(entries)) => {
            if !check_keys_unique(entries) {
                return None;
            }
            let r = args_from_entries(entries);
            proof {
                if r is Some {
                    lemma_args_keys(entry_models_of(entries@));
                }
            }
            r
        },
        Some(_) => None,
    }
}

impl Stage {
    /// Read one stage off a YAML mapping. The set of keys decides the
    /// variant; a key outside the variant's set rejects the stage.
    pub fn from_yaml(y: &Yaml) -> (r: Option<Stage>)
        ensures
            match r {
                Some(st) => spec_stage_from_yaml((*y).model()) == Some(st@) && stage_well_formed(
                    st@,
                ),
                None => spec_stage_from_yaml((*y).model()) is None,
            },
    {
        let entries = match y {
            Yaml::Mapping(entries) => entries,
            _ => {
                return None;
            },
        };
        if !check_keys_unique(entries) {
            return None;
        }
        if map_get(entries, "model").is_some() {
            let allowed = ["model", "inputs", "outputs"];
            proof {
                reveal_strlit("model");
                reveal_strlit("inputs");
                reveal_strlit("outputs");
                assert(allowed@.map_values(|s: &str| s@) =~= seq!["model"@, "inputs"@, "outputs"@]);
            }
            if !check_keys_allowed(entries, &allowed) {
                return None;
            }
            let model = match map_get(entries, "model") {
                Some(Yaml::Str(m)) => m.clone(),
                _ => {
                    return None;
                },
            };
            let inputs = match inputs_opt(map_get(entries, "inputs")) {
                Some(x) => x,
                None => {
                    return None;
                },
            };
            let outputs = match outputs_opt(map_get(entries, "outputs")) {
                Some(x) => x,
                None => {
                    return None;
                },
            };
            return Some(Stage::Model { model, inputs, outputs });
        }
        if map_get(entries, "proc-block").is_some() {
            let allowed = ["proc-block", "inputs", "outputs", "args"];
            proof {
                reveal_strlit("proc-block");
                reveal_strlit("inputs");
                reveal_strlit("outputs");
                reveal_strlit("args");
                assert(allowed@.map_values(|s: &str| s@) =~= seq![
                    "proc-block"@,
                    "inputs"@,
                    "outputs"@,
                    "args"@,
                ]);
            }
            if !check_keys_allowed(entries, &allowed) {
                return None;
            }
            let proc_block = match map_get(entries, "proc-block") {
                Some(Yaml::Str(p)) => match Path::parse(p.as_str()) {
                    Ok(pb) => pb,
                    Err(_) => {
                        return None;
                    },
                },
                _ => {
                    return None;
                },
            };
            let inputs = match inputs_opt(map_get(entries, "inputs")) {
                Some(x) => x,
                None => {
                    return None;
                },
            };
            let outputs = match outputs_opt(map_get(entries, "outputs")) {
                Some(x) => x,
                None => {
                    return None;
                },
            };
            let args = match args_opt(map_get(entries, "args")) {
                Some(x) => x,
                None => {
                    return None;
                },
            };
            return Some(Stage::ProcBlock { proc_block, inputs, outputs, args });
        }
        if map_get(entries, "capability").is_some() {
            let allowed = ["capability", "outputs", "args"];
            proof {
                reveal_strlit("capability");
                reveal_strlit("outputs");
                reveal_strlit("args");
                assert(allowed@.map_values(|s: &str| s@) =~= seq![
                    "capability"@,
                    "outputs"@,
                    "args"@,
                ]);
            }
            if !check_keys_allowed(entries, &allowed) {
                return None;
            }
            let capability = match map_get(entries, "capability") {
                Some(Yaml::Str(c)) => c.clone(),
                _ => {
                    return None;
                },
            };
            let outputs = match outputs_opt(map_get(entries, "outputs")) {
                Some(x) => x,
                None => {
                    return None;
                },
            };
            let args = match args_opt(map_get(entries, "args")) {
                Some(x) => x,
                None => {
                    return None;
                },
            };
            return Some(Stage::Capability { capability, outputs, args });
        }
        if map_get(entries, "out").is_some() {
            let allowed = ["out", "inputs", "args"];
            proof {
                reveal_strlit("out");
                reveal_strlit("inputs");
                reveal_strlit("args");
                assert(allowed@.map_values(|s: &str| s@) =~= seq!["out"@, "inputs"@, "args"@]);
            }
            if !check_keys_allowed(entries, &allowed) {
                return None;
            }
            let out = match map_get(entries, "out") {
                Some(Yaml::Str(o)) => o.clone(),
                _ => {
                    return None;
                },
            };
            let inputs = match inputs_opt(map_get(entries, "inputs")) {
                Some(x) => x,
                None => {
                    return None;
                },
            };
            let args = match args_opt(map_get(entries, "args")) {
                Some(x) => x,
                None => {
                    return None;
                },
            };
            return Some(Stage::Out { out, inputs, args });
        }
        None
    }
}

/// Read the whole pipeline table; on failure, the name of the first stage
/// that is not well-formed.
fn pipeline_from_entries(entries: &Vec<(String, Yaml)>) -> (r: Result<
    Vec<(String, Stage)>,
    String,
>)
    ensures
        match r {
            Ok(p) => spec_pipeline_from_entries(entry_models_of(entries@)) == Ok::<_, Seq<char>>(
                pipeline_view(p@),
            ) && (forall|i: int|
                0 <= i < p@.len() ==> stage_well_formed(#[trigger] pipeline_view(p@)[i].1))
                && p@.len() == entries@.len() && (forall|i: int|
                0 <= i < p@.len() ==> (#[trigger] p@[i].0)@ == entries@[i].0@),
            Err(name) => spec_pipeline_from_entries(entry_models_of(entries@)) == Err::<
                Seq<(Seq<char>, StageModel)>,
                _,
            >(name@),
        },
{
    proof {
        lemma_entry_models_of(entries@);
    }
    let ghost em = entry_models_of(entries@);
    let n = entries.len();
    let mut out: Vec<(String, Stage)> = Vec::new();
    proof {
        assert(pipeline_view(out@) =~= Seq::<(Seq<char>, StageModel)>::empty());
    }
    let mut i: usize = 0;
    while i < n
        invariant
            0 <= i <= n,
            n == entries@.len(),
            em == entry_models_of(entries@),
            em.len() == n,
            forall|j: int| 0 <= j < n ==> em[j] == (entries@[j].0@, entries@[j].1.model()),
            spec_pipeline_from_entries(em.take(i as int)) == Ok::<_, Seq<char>>(
                pipeline_view(out@),
            ),
            forall|j: int| 0 <= j < out@.len() ==> stage_well_formed(#[trigger] pipeline_view(out@)[j].1),
            out@.len() == i,
            forall|j: int| 0 <= j < i ==> out@[j].0@ == entries@[j].0@,
        decreases n - i,
    {
        proof {
            assert(em.take(i as int + 1).drop_last() =~= em.take(i as int));
            assert(em.take(i as int + 1).last() == em[i as int]);
        }
        let ghost prev = out@;
        match Stage::from_yaml(&entries[i].1) {
            Some(st) => {
                let name = entries[i].0.clone();
                out.push((name, st));
                proof {
                    assert(pipeline_view(out@) =~= pipeline_view(prev).push(
                        (out@.last().0@, out@.last().1@),
                    ));
                }
            },
            None => {
                proof {
                    lemma_pipeline_prefix_err(em, i as int + 1);
                }
                return Err(entries[i].0.clone());
            },
        }
        i += 1;
    }
    proof {
        assert(em.take(n as int) =~= em);
    }
    Ok(out)
}

/// An error at any prefix is the whole table's error.
proof fn lemma_pipeline_prefix_err(entries: Seq<(Seq<char>, YamlModel)>, i: int)
    requires
        0 <= i <= entries.len(),
        spec_pipeline_from_entries(entries.take(i)) is Err,
    ensures
        spec_pipeline_from_entries(entries) == spec_pipeline_from_entries(entries.take(i)),
    decreases entries.len() - i,
{
    if i < entries.len() {
        assert(entries.take(i + 1).drop_last() =~= entries.take(i));
        lemma_pipeline_prefix_err(entries, i + 1);
    } else {
        assert(entries.take(i) =~= entries);
    }
}

impl Document {
    /// Read a whole Runefile off a YAML tree.
    pub fn from_yaml(y: &Yaml) -> (r: Result<Document, ParseError>)
        ensures
            match r {
                Ok(d) => spec_document_from_yaml((*y).model()) == Ok::<_, ParseErrorModel>(d@)
                    && document_well_formed(d@),
                Err(e) => spec_document_from_yaml((*y).model()) == Err::<DocumentModel, _>(e@),
            },
    {
        let entries = match y {
            Yaml::Mapping(entries) => entries,
            _ => {
                return Err(structure_error("the Runefile must be a YAML mapping"));
            },
        };
        if !check_keys_unique(entries) {
            return Err(structure_error("the Runefile has a duplicate key"));
        }
        let allowed = ["image", "pipeline", "version"];
        proof {
            reveal_strlit("image");
            reveal_strlit("pipeline");
            reveal_strlit("version");
            assert(allowed@.map_values(|s: &str| s@) =~= seq!["image"@, "pipeline"@, "version"@]);
        }
        if !check_keys_allowed(entries, &allowed) {
            return Err(structure_error("the Runefile has an unknown top-level key"));
        }
        let image = match map_get(entries, "image") {
            None => {
                return Err(structure_error("the Runefile needs an \"image\" entry"));
            },
            Some(Yaml::Str(img)) => match Path::parse(img.as_str()) {
                Ok(p) => p,
                Err(_) => {
                    return Err(
                        structure_error("the \"image\" entry must be a dependency path"),
                    );
                },
            },
            Some(_) => {
                return Err(structure_error("the \"image\" entry must be a dependency path"));
            },
        };
        let p_entries = match map_get(entries, "pipeline") {
            None => {
                return Err(structure_error("the Runefile needs a \"pipeline\" entry"));
            },
            Some(Yaml::Mapping(p_entries)) => p_entries,
            Some(_) => {
                return Err(
                    structure_error(
                        "the \"pipeline\" entry must be a mapping from stage names to stages",
                    ),
                );
            },
        };
        if !check_keys_unique(p_entries) {
            return Err(structure_error("the pipeline declares a stage name twice"));
        }
        match pipeline_from_entries(p_entries) {
            Ok(pipeline) => {
                let d = Document { image, pipeline };
                proof {
                    let pv = pipeline_view(d.pipeline@);
                    let pe = entry_models_of(p_entries@);
                    lemma_entry_models_of(p_entries@);
                    assert forall|a: int, b: int| 0 <= a < b < pv.len() implies (
                    #[trigger] pv[a].0) != (#[trigger] pv[b].0) by {
                        assert(pv[a].0 == d.pipeline@[a].0@);
                        assert(d.pipeline@[a].0@ == p_entries@[a].0@);
                        assert(p_entries@[a].0@ == pe[a].0);
                        assert(pv[b].0 == d.pipeline@[b].0@);
                        assert(d.pipeline@[b].0@ == p_entries@[b].0@);
                        assert(p_entries@[b].0@ == pe[b].0);
                        assert(pe[a].0 != pe[b].0);
                    }
                    assert(keys_unique(pv));
                }
                Ok(d)
            },
            Err(name) => {
                let mut message = String::from_str("the stage \"");
                message.append(name.as_str());
                message.append("\" is not well-formed");
                Err(ParseError::Structure { message })
            },
        }
    }

    /// Parse Runefile text: read the YAML, then the Runefile shape.
    pub fn parse(text: &str) -> (r: Result<Document, ParseError>)
        ensures
            match r {
                Ok(d) => spec_parse_document(text@) == Ok::<_, ParseErrorModel>(d@)
                    && document_well_formed(d@),
                Err(e) => spec_parse_document(text@) == Err::<DocumentModel, _>(e@),
            },
    {
        match read_yaml(text) {
            Ok(y) => Document::from_yaml(&y),
            Err(YamlError::Syntax { message, offset }) => Err(
                ParseError::Syntax { message, offset },
            ),
            Err(YamlError::Unsupported) => Err(
                structure_error("the Runefile holds YAML the compiler does not accept"),
            ),
        }
    }
}

impl Stage {
    /// Parse one stage from YAML text.
    pub fn parse(text: &str) -> (r: Option<Stage>)
        ensures
            match r {
                Some(st) => ({
                    &&& yaml_of_text(text@) matches Ok(y)
                    &&& spec_stage_from_yaml(y) == Some(st@)
                    &&& stage_well_formed(st@)
                }),
                None => !(yaml_of_text(text@) matches Ok(y) && spec_stage_from_yaml(y) is Some),
            },
    {
        match read_yaml(text) {
            Ok(y) => Stage::from_yaml(&y),
            Err(_) => None,
        }
    }
}

impl ArgValue {
    /// Parse one argument value from YAML text.
    pub fn parse(text: &str) -> (r: Option<ArgValue>)
        ensures
            match r {
                Some(v) => ({
                    &&& yaml_of_text(text@) matches Ok(y)
                    &&& spec_value_from_yaml(y) == Some(v@)
                }),
                None => !(yaml_of_text(text@) matches Ok(y) && spec_value_from_yaml(y) is Some),
            },
    {
        match read_yaml(text) {
            Ok(y) => ArgValue::from_yaml(&y),
            Err(_) => None,
        }
    }
}

/// A structure error with the given message.
fn structure_error(message: &str) -> (r: ParseError)
    ensures
        r@ == spec_structure_error(message@),
{
    ParseError::Structure { message: String::from_str(message) }
}


// ---------------------------------------------------------------------------
// Serialization to the YAML data model, and the round trip
// ---------------------------------------------------------------------------

/// An argument value's YAML form.
pub open spec fn spec_value_to_yaml(v: ArgValueModel) -> YamlModel
    decreases v,
{
    match v {
        ArgValueModel::Int(i) => YamlModel::Int(i),
        ArgValueModel::Float(t) => YamlModel::Float(t),
        ArgValueModel::Str(s) => YamlModel::Str(s),
        ArgValueModel::List(items) => YamlModel::List(spec_values_to_yaml(items)),
    }
}

/// A value list's YAML form.
pub open spec fn spec_values_to_yaml(vs: Seq<ArgValueModel>) -> Seq<YamlModel>
    decreases vs,
    via spec_values_to_yaml_decreases
{
    if vs.len() == 0 {
        Seq::empty()
    } else {
        spec_values_to_yaml(vs.drop_last()).push(spec_value_to_yaml(vs.last()))
    }
}

#[via_fn]
proof fn spec_values_to_yaml_decreases(vs: Seq<ArgValueModel>) {
    if vs.len() > 0 {
        vstd::seq::axiom_seq_subrange_decreases(vs, 0, vs.len() - 1);
        assert(vs.drop_last() == vs.subrange(0, vs.len() - 1));
    }
}

/// Values round-trip through their YAML form.
pub proof fn lemma_value_round_trip(v: ArgValueModel)
    ensures
        spec_value_from_yaml(spec_value_to_yaml(v)) == Some(v),
    decreases v,
{
    match v {
        ArgValueModel::List(items) => {
            lemma_values_round_trip(items);
        },
        _ => {},
    }
}

pub proof fn lemma_values_round_trip(vs: Seq<ArgValueModel>)
    ensures
        spec_values_from_yaml(spec_values_to_yaml(vs)) == Some(vs),
    decreases vs,
{
    if vs.len() == 0 {
        assert(spec_values_from_yaml(spec_values_to_yaml(vs)) == Some(Seq::<
            ArgValueModel,
        >::empty()));
        assert(vs =~= Seq::<ArgValueModel>::empty());
    } else {
        lemma_values_round_trip(vs.drop_last());
        vstd::seq::axiom_seq_subrange_decreases(vs, 0, vs.len() - 1);
        assert(vs.drop_last() == vs.subrange(0, vs.len() - 1));
        lemma_value_round_trip(vs.last());
        let ys = spec_values_to_yaml(vs);
        assert(ys.drop_last() =~= spec_values_to_yaml(vs.drop_last()));
        assert(ys.last() == spec_value_to_yaml(vs.last()));
        assert(spec_values_from_yaml(ys) == Some(vs.drop_last().push(vs.last())));
        assert(vs.drop_last().push(vs.last()) =~= vs);
    }
}

/// A dimension list's YAML form.
pub open spec fn spec_dims_to_yaml(ds: Seq<usize>) -> Seq<YamlModel> {
    Seq::new(ds.len(), |i: int| YamlModel::Int(ds[i] as i64))
}

/// Well-formed dimensions round-trip through their YAML form.
pub proof fn lemma_dims_round_trip(ds: Seq<usize>)
    requires
        forall|i: int| 0 <= i < ds.len() ==> 0 < #[trigger] ds[i] as int <= i64::MAX as int,
    ensures
        spec_dims_from_yaml(spec_dims_to_yaml(ds)) == Some(ds),
    decreases ds.len(),
{
    if ds.len() == 0 {
        assert(ds =~= Seq::<usize>::empty());
    } else {
        assert(forall|i: int|
            0 <= i < ds.drop_last().len() ==> 0 < #[trigger] ds.drop_last()[i] as int
                <= i64::MAX as int);
        lemma_dims_round_trip(ds.drop_last());
        let ys = spec_dims_to_yaml(ds);
        assert(ys.drop_last() =~= spec_dims_to_yaml(ds.drop_last()));
        assert(ys.last() == YamlModel::Int(ds.last() as i64));
        assert(0 < ds.last() as i64);
        assert(ds.last() as i64 as usize == ds.last());
        assert(spec_dims_from_yaml(ys) == Some(ds.drop_last().push(ds.last())));
        assert(ds.drop_last().push(ds.last()) =~= ds);
    }
}

/// A tensor type's YAML form.
pub open spec fn spec_type_to_yaml(t: TypeModel) -> YamlModel {
    YamlModel::Mapping(
        seq![("type"@, YamlModel::Str(t.ty)), ("dimensions"@, YamlModel::List(spec_dims_to_yaml(t.dimensions)))],
    )
}

/// Well-formed tensor types round-trip through their YAML form.
pub proof fn lemma_type_round_trip(t: TypeModel)
    requires
        type_well_formed(t),
    ensures
        spec_type_from_yaml(spec_type_to_yaml(t)) == Some(t),
{
    reveal_strlit("type");
    reveal_strlit("dimensions");
    let entries = seq![
        ("type"@, YamlModel::Str(t.ty)),
        ("dimensions"@, YamlModel::List(spec_dims_to_yaml(t.dimensions))),
    ];
    assert("type"@.len() == 4);
    assert("dimensions"@.len() == 10);
    assert("type"@ != "dimensions"@);
    assert(keys_unique(entries));
    assert(keys_allowed(entries, seq!["type"@, "dimensions"@])) by {
        assert(key_in(entries[0].0, seq!["type"@, "dimensions"@]));
        assert(key_in(entries[1].0, seq!["type"@, "dimensions"@]));
    }
    assert(spec_map_get(entries, "type"@) == Some(YamlModel::Str(t.ty))) by {
        assert(entries.last().0 == "dimensions"@);
        assert(entries.last().0 != "type"@);
        let single = entries.drop_last();
        assert(single =~= seq![("type"@, YamlModel::Str(t.ty))]);
        assert(single.len() == 1);
        assert(single.last() == ("type"@, YamlModel::Str(t.ty)));
        assert(spec_map_get(single, "type"@) == Some(YamlModel::Str(t.ty)));
        assert(spec_map_get(entries, "type"@) == spec_map_get(single, "type"@));
    }
    assert(spec_map_get(entries, "dimensions"@) == Some(
        YamlModel::List(spec_dims_to_yaml(t.dimensions)),
    ));
    lemma_dims_round_trip(t.dimensions);
    assert(spec_type_from_yaml(spec_type_to_yaml(t)) == Some(
        TypeModel { ty: t.ty, dimensions: t.dimensions },
    ));
    assert(TypeModel { ty: t.ty, dimensions: t.dimensions } == t);
}

/// A type list's YAML form.
pub open spec fn spec_types_to_yaml(ts: Seq<TypeModel>) -> Seq<YamlModel> {
    Seq::new(ts.len(), |i: int| spec_type_to_yaml(ts[i]))
}

pub proof fn lemma_types_round_trip(ts: Seq<TypeModel>)
    requires
        types_well_formed(ts),
    ensures
        spec_types_from_yaml(spec_types_to_yaml(ts)) == Some(ts),
    decreases ts.len(),
{
    if ts.len() == 0 {
        assert(ts =~= Seq::<TypeModel>::empty());
    } else {
        assert(types_well_formed(ts.drop_last())) by {
            assert(forall|i: int|
                0 <= i < ts.drop_last().len() ==> ts.drop_last()[i] == ts[i]);
        }
        lemma_types_round_trip(ts.drop_last());
        lemma_type_round_trip(ts.last());
        let ys = spec_types_to_yaml(ts);
        assert(ys.drop_last() =~= spec_types_to_yaml(ts.drop_last()));
        assert(ys.last() == spec_type_to_yaml(ts.last()));
        assert(spec_types_from_yaml(ys) == Some(ts.drop_last().push(ts.last())));
        assert(ts.drop_last().push(ts.last()) =~= ts);
    }
}

/// A name list's YAML form.
pub open spec fn spec_strings_to_yaml(ss: Seq<Seq<char>>) -> Seq<YamlModel> {
    Seq::new(ss.len(), |i: int| YamlModel::Str(ss[i]))
}

pub proof fn lemma_strings_round_trip(ss: Seq<Seq<char>>)
    ensures
        spec_strings_from_yaml(spec_strings_to_yaml(ss)) == Some(ss),
    decreases ss.len(),
{
    if ss.len() == 0 {
        assert(ss =~= Seq::<Seq<char>>::empty());
    } else {
        lemma_strings_round_trip(ss.drop_last());
        let ys = spec_strings_to_yaml(ss);
        assert(ys.drop_last() =~= spec_strings_to_yaml(ss.drop_last()));
        assert(ys.last() == YamlModel::Str(ss.last()));
        assert(spec_strings_from_yaml(ys) == Some(ss.drop_last().push(ss.last())));
        assert(ss.drop_last().push(ss.last()) =~= ss);
    }
}

/// An argument table's YAML form.
pub open spec fn spec_args_to_yaml(args: Seq<(Seq<char>, ArgValueModel)>) -> Seq<
    (Seq<char>, YamlModel),
> {
    Seq::new(args.len(), |i: int| (args[i].0, spec_value_to_yaml(args[i].1)))
}

pub proof fn lemma_args_round_trip(args: Seq<(Seq<char>, ArgValueModel)>)
    ensures
        spec_args_from_entries(spec_args_to_yaml(args)) == Some(args),
    decreases args.len(),
{
    if args.len() == 0 {
        assert(args =~= Seq::<(Seq<char>, ArgValueModel)>::empty());
    } else {
        lemma_args_round_trip(args.drop_last());
        lemma_value_round_trip(args.last().1);
        let ys = spec_args_to_yaml(args);
        assert(ys.drop_last() =~= spec_args_to_yaml(args.drop_last()));
        assert(ys.last() == (args.last().0, spec_value_to_yaml(args.last().1)));
        assert(spec_args_from_entries(ys) == Some(
            args.drop_last().push((args.last().0, args.last().1)),
        ));
        assert(args.drop_last().push((args.last().0, args.last().1)) =~= args);
    }
}

/// A stage's YAML form: the variant's discriminating key first, then its
/// components.
pub open spec fn spec_stage_to_yaml(s: StageModel) -> YamlModel {
    match s {
        StageModel::Model { model, inputs, outputs } => YamlModel::Mapping(
            seq![
                ("model"@, YamlModel::Str(model)),
                ("inputs"@, YamlModel::List(spec_strings_to_yaml(inputs))),
                ("outputs"@, YamlModel::List(spec_types_to_yaml(outputs))),
            ],
        ),
        StageModel::ProcBlock { proc_block, inputs, outputs, args } => YamlModel::Mapping(
            seq![
                ("proc-block"@, YamlModel::Str(crate::path::spec_render(proc_block))),
                ("inputs"@, YamlModel::List(spec_strings_to_yaml(inputs))),
                ("outputs"@, YamlModel::List(spec_types_to_yaml(outputs))),
                ("args"@, YamlModel::Mapping(spec_args_to_yaml(args))),
            ],
        ),
        StageModel::Capability { capability, outputs, args } => YamlModel::Mapping(
            seq![
                ("capability"@, YamlModel::Str(capability)),
                ("outputs"@, YamlModel::List(spec_types_to_yaml(outputs))),
                ("args"@, YamlModel::Mapping(spec_args_to_yaml(args))),
            ],
        ),
        StageModel::Out { out, inputs, args } => YamlModel::Mapping(
            seq![
                ("out"@, YamlModel::Str(out)),
                ("inputs"@, YamlModel::List(spec_strings_to_yaml(inputs))),
                ("args"@, YamlModel::Mapping(spec_args_to_yaml(args))),
            ],
        ),
    }
}

/// The whole pipeline's YAML form, stages in document order.
pub open spec fn spec_pipeline_to_yaml(p: Seq<(Seq<char>, StageModel)>) -> Seq<
    (Seq<char>, YamlModel),
> {
    Seq::new(p.len(), |i: int| (p[i].0, spec_stage_to_yaml(p[i].1)))
}

/// A document's YAML form.
pub open spec fn spec_document_to_yaml(d: DocumentModel) -> YamlModel {
    YamlModel::Mapping(
        seq![
            ("image"@, YamlModel::Str(crate::path::spec_render(d.image))),
            ("pipeline"@, YamlModel::Mapping(spec_pipeline_to_yaml(d.pipeline))),
        ],
    )
}


/// A lowered argument table carries its entries' keys, in order.
proof fn lemma_args_keys(entries: Seq<(Seq<char>, YamlModel)>)
    requires
        spec_args_from_entries(entries) is Some,
    ensures
        spec_args_from_entries(entries)->0.len() == entries.len(),
        forall|i: int|
            0 <= i < entries.len() ==> (#[trigger] spec_args_from_entries(entries)->0[i]).0
                == entries[i].0,
    decreases entries.len(),
{
    if entries.len() > 0 {
        lemma_args_keys(entries.drop_last());
    }
}

/// The value registered for the `i`th key of a mapping whose later keys all
/// differ from it.
proof fn lemma_map_get_at(entries: Seq<(Seq<char>, YamlModel)>, i: int)
    requires
        0 <= i < entries.len(),
        forall|j: int| i < j < entries.len() ==> (#[trigger] entries[j]).0 != entries[i].0,
    ensures
        spec_map_get(entries, entries[i].0) == Some(entries[i].1),
    decreases entries.len(),
{
    if i < entries.len() - 1 {
        assert(entries.last().0 != entries[i].0);
        assert(entries.drop_last()[i] == entries[i]);
        assert(forall|j: int|
            i < j < entries.drop_last().len() ==> (#[trigger] entries.drop_last()[j]).0
                != entries.drop_last()[i].0);
        lemma_map_get_at(entries.drop_last(), i);
    }
}

/// No entry, no value.
proof fn lemma_map_get_absent(entries: Seq<(Seq<char>, YamlModel)>, k: Seq<char>)
    requires
        forall|j: int| 0 <= j < entries.len() ==> (#[trigger] entries[j]).0 != k,
    ensures
        spec_map_get(entries, k) is None,
    decreases entries.len(),
{
    if entries.len() > 0 {
        lemma_map_get_absent(entries.drop_last(), k);
    }
}

/// Well-formed stages round-trip through their YAML form.
pub proof fn lemma_stage_round_trip(s: StageModel)
    requires
        stage_well_formed(s),
    ensures
        spec_stage_from_yaml(spec_stage_to_yaml(s)) == Some(s),
{
    reveal_strlit("model");
    reveal_strlit("proc-block");
    reveal_strlit("capability");
    reveal_strlit("out");
    reveal_strlit("inputs");
    reveal_strlit("outputs");
    reveal_strlit("args");
    assert("model"@.len() == 5 && "proc-block"@.len() == 10 && "capability"@.len() == 10
        && "out"@.len() == 3 && "inputs"@.len() == 6 && "outputs"@.len() == 7 && "args"@.len()
        == 4);
    assert("proc-block"@[0] == 'p' && "capability"@[0] == 'c');
    match s {
        StageModel::Model { model, inputs, outputs } => {
            let entries = seq![
                ("model"@, YamlModel::Str(model)),
                ("inputs"@, YamlModel::List(spec_strings_to_yaml(inputs))),
                ("outputs"@, YamlModel::List(spec_types_to_yaml(outputs))),
            ];
            assert(keys_unique(entries));
            assert(keys_allowed(entries, seq!["model"@, "inputs"@, "outputs"@])) by {
                assert(key_in(entries[0].0, seq!["model"@, "inputs"@, "outputs"@]));
                assert(key_in(entries[1].0, seq!["model"@, "inputs"@, "outputs"@]));
                assert(key_in(entries[2].0, seq!["model"@, "inputs"@, "outputs"@]));
            }
            lemma_map_get_at(entries, 0);
            lemma_map_get_at(entries, 1);
            lemma_map_get_at(entries, 2);
            lemma_strings_round_trip(inputs);
            lemma_types_round_trip(outputs);
        },
        StageModel::ProcBlock { proc_block, inputs, outputs, args } => {
            let entries = seq![
                ("proc-block"@, YamlModel::Str(crate::path::spec_render(proc_block))),
                ("inputs"@, YamlModel::List(spec_strings_to_yaml(inputs))),
                ("outputs"@, YamlModel::List(spec_types_to_yaml(outputs))),
                ("args"@, YamlModel::Mapping(spec_args_to_yaml(args))),
            ];
            assert(keys_unique(entries));
            assert(keys_allowed(entries, seq!["proc-block"@, "inputs"@, "outputs"@, "args"@]))
                by {
                assert(key_in(entries[0].0, seq!["proc-block"@, "inputs"@, "outputs"@, "args"@]));
                assert(key_in(entries[1].0, seq!["proc-block"@, "inputs"@, "outputs"@, "args"@]));
                assert(key_in(entries[2].0, seq!["proc-block"@, "inputs"@, "outputs"@, "args"@]));
                assert(key_in(entries[3].0, seq!["proc-block"@, "inputs"@, "outputs"@, "args"@]));
            }
            lemma_map_get_absent(entries, "model"@);
            lemma_map_get_at(entries, 0);
            lemma_map_get_at(entries, 1);
            lemma_map_get_at(entries, 2);
            lemma_map_get_at(entries, 3);
            crate::path::lemma_path_round_trip(proc_block);
            lemma_strings_round_trip(inputs);
            lemma_types_round_trip(outputs);
            lemma_args_round_trip(args);
            assert(keys_unique(spec_args_to_yaml(args)));
        },
        StageModel::Capability { capability, outputs, args } => {
            let entries = seq![
                ("capability"@, YamlModel::Str(capability)),
                ("outputs"@, YamlModel::List(spec_types_to_yaml(outputs))),
                ("args"@, YamlModel::Mapping(spec_args_to_yaml(args))),
            ];
            assert(keys_unique(entries));
            assert(keys_allowed(entries, seq!["capability"@, "outputs"@, "args"@])) by {
                assert(key_in(entries[0].0, seq!["capability"@, "outputs"@, "args"@]));
                assert(key_in(entries[1].0, seq!["capability"@, "outputs"@, "args"@]));
                assert(key_in(entries[2].0, seq!["capability"@, "outputs"@, "args"@]));
            }
            lemma_map_get_absent(entries, "model"@);
            lemma_map_get_absent(entries, "proc-block"@);
            lemma_map_get_absent(entries, "inputs"@);
            lemma_map_get_at(entries, 0);
            lemma_map_get_at(entries, 1);
            lemma_map_get_at(entries, 2);
            lemma_types_round_trip(outputs);
            lemma_args_round_trip(args);
            assert(keys_unique(spec_args_to_yaml(args)));
            assert(spec_strings_from_yaml(Seq::<YamlModel>::empty()) == Some(Seq::<
                Seq<char>,
            >::empty()));
        },
        StageModel::Out { out, inputs, args } => {
            let entries = seq![
                ("out"@, YamlModel::Str(out)),
                ("inputs"@, YamlModel::List(spec_strings_to_yaml(inputs))),
                ("args"@, YamlModel::Mapping(spec_args_to_yaml(args))),
            ];
            assert(keys_unique(entries));
            assert(keys_allowed(entries, seq!["out"@, "inputs"@, "args"@])) by {
                assert(key_in(entries[0].0, seq!["out"@, "inputs"@, "args"@]));
                assert(key_in(entries[1].0, seq!["out"@, "inputs"@, "args"@]));
                assert(key_in(entries[2].0, seq!["out"@, "inputs"@, "args"@]));
            }
            lemma_map_get_absent(entries, "model"@);
            lemma_map_get_absent(entries, "proc-block"@);
            lemma_map_get_absent(entries, "capability"@);
            lemma_map_get_at(entries, 0);
            lemma_map_get_at(entries, 1);
            lemma_map_get_at(entries, 2);
            lemma_strings_round_trip(inputs);
            lemma_args_round_trip(args);
            assert(keys_unique(spec_args_to_yaml(args)));
        },
    }
}

/// A well-formed pipeline table round-trips, entry by entry.
proof fn lemma_pipeline_round_trip(p: Seq<(Seq<char>, StageModel)>)
    requires
        forall|i: int| 0 <= i < p.len() ==> stage_well_formed(#[trigger] p[i].1),
    ensures
        spec_pipeline_from_entries(spec_pipeline_to_yaml(p)) == Ok::<_, Seq<char>>(p),
    decreases p.len(),
{
    if p.len() == 0 {
        assert(p =~= Seq::<(Seq<char>, StageModel)>::empty());
    } else {
        assert(forall|i: int|
            0 <= i < p.drop_last().len() ==> stage_well_formed(
                #[trigger] p.drop_last()[i].1,
            ));
        lemma_pipeline_round_trip(p.drop_last());
        lemma_stage_round_trip(p.last().1);
        let ys = spec_pipeline_to_yaml(p);
        assert(ys.drop_last() =~= spec_pipeline_to_yaml(p.drop_last()));
        assert(ys.last() == (p.last().0, spec_stage_to_yaml(p.last().1)));
        assert(spec_pipeline_from_entries(ys) == Ok::<_, Seq<char>>(
            p.drop_last().push((p.last().0, p.last().1)),
        ));
        assert(p.drop_last().push((p.last().0, p.last().1)) =~= p);
    }
}

/// Parsing inverts serialization: every well-formed document, written back
/// to the YAML data model and read again, is recovered exactly. Together
/// with the path round trip this is the whole parse/serialize round trip,
/// up to the YAML text encoding, which belongs to the YAML library.
pub proof fn lemma_document_round_trip(d: DocumentModel)
    requires
        document_well_formed(d),
    ensures
        spec_document_from_yaml(spec_document_to_yaml(d)) == Ok::<_, ParseErrorModel>(d),
{
    reveal_strlit("image");
    reveal_strlit("pipeline");
    reveal_strlit("version");
    assert("image"@.len() == 5 && "pipeline"@.len() == 8 && "version"@.len() == 7);
    assert("image"@[0] == 'i' && "version"@[0] == 'v');
    let entries = seq![
        ("image"@, YamlModel::Str(crate::path::spec_render(d.image))),
        ("pipeline"@, YamlModel::Mapping(spec_pipeline_to_yaml(d.pipeline))),
    ];
    assert(keys_unique(entries));
    assert(keys_allowed(entries, seq!["image"@, "pipeline"@, "version"@])) by {
        assert(key_in(entries[0].0, seq!["image"@, "pipeline"@, "version"@]));
        assert(key_in(entries[1].0, seq!["image"@, "pipeline"@, "version"@]));
    }
    lemma_map_get_at(entries, 0);
    lemma_map_get_at(entries, 1);
    crate::path::lemma_path_round_trip(d.image);
    assert(keys_unique(spec_pipeline_to_yaml(d.pipeline)));
    lemma_pipeline_round_trip(d.pipeline);
    assert(spec_document_from_yaml(spec_document_to_yaml(d)) == Ok::<_, ParseErrorModel>(
        DocumentModel { image: d.image, pipeline: d.pipeline },
    ));
    assert(DocumentModel { image: d.image, pipeline: d.pipeline } == d);
}


/// `spec_values_to_yaml` maps the list pointwise.
pub proof fn lemma_values_to_yaml_pointwise(vs: Seq<ArgValueModel>)
    ensures
        spec_values_to_yaml(vs).len() == vs.len(),
        forall|i: int|
            0 <= i < vs.len() ==> spec_values_to_yaml(vs)[i] == spec_value_to_yaml(vs[i]),
    decreases vs.len(),
{
    if vs.len() > 0 {
        vstd::seq::axiom_seq_subrange_decreases(vs, 0, vs.len() - 1);
        assert(vs.drop_last() == vs.subrange(0, vs.len() - 1));
        lemma_values_to_yaml_pointwise(vs.drop_last());
        assert(forall|i: int| 0 <= i < vs.len() - 1 ==> vs.drop_last()[i] == vs[i]);
    }
}

impl ArgValue {
    /// This value's YAML form.
    pub fn to_yaml(&self) -> (r: Yaml)
        ensures
            r.model() == spec_value_to_yaml((*self).model()),
        decreases *self,
    {
        match self {
            ArgValue::Int(i) => Yaml::Int(*i),
            ArgValue::Float(t) => Yaml::Float(t.clone()),
            ArgValue::Str(v) => Yaml::Str(v.clone()),
            ArgValue::List(items) => {
                proof {
                    lemma_value_models_of(items@);
                    lemma_values_to_yaml_pointwise(value_models_of(items@));
                }
                let ghost vm = value_models_of(items@);
                let n = items.len();
                let mut out: Vec<Yaml> = Vec::new();
                let mut i: usize = 0;
                while i < n
                    invariant
                        0 <= i <= n,
                        n == items@.len(),
                        vm == value_models_of(items@),
                        vm.len() == n,
                        forall|j: int| 0 <= j < n ==> vm[j] == items@[j].model(),
                        spec_values_to_yaml(vm).len() == n,
                        forall|j: int|
                            0 <= j < n ==> spec_values_to_yaml(vm)[j] == spec_value_to_yaml(
                                vm[j],
                            ),
                        out@.len() == i,
                        forall|j: int|
                            0 <= j < i ==> (#[trigger] out@[j]).model() == spec_value_to_yaml(
                                vm[j],
                            ),
                        decreases_to!(*self => items@),
                    decreases n - i,
                {
                    proof {
                        assert(decreases_to!(items@ => items@[i as int]));
                    }
                    let y = items[i].to_yaml();
                    out.push(y);
                    i += 1;
                }
                proof {
                    crate::yaml::lemma_models_of(out@);
                    assert(crate::yaml::models_of(out@) =~= spec_values_to_yaml(vm));
                }
                Yaml::List(out)
            },
        }
    }
}

/// The YAML form of a dimension list.
fn dims_to_yaml(ds: &Vec<usize>) -> (r: Vec<Yaml>)
    requires
        forall|i: int| 0 <= i < ds@.len() ==> 0 < #[trigger] ds@[i] as int <= i64::MAX as int,
    ensures
        crate::yaml::models_of(r@) == spec_dims_to_yaml(ds@),
{
    let n = ds.len();
    let mut out: Vec<Yaml> = Vec::new();
    let mut i: usize = 0;
    while i < n
        invariant
            0 <= i <= n,
            n == ds@.len(),
            forall|j: int| 0 <= j < n ==> 0 < #[trigger] ds@[j] as int <= i64::MAX as int,
            out@.len() == i,
            forall|j: int| 0 <= j < i ==> (#[trigger] out@[j]).model() == YamlModel::Int(ds@[j] as i64),
        decreases n - i,
    {
        let d = ds[i];
        out.push(Yaml::Int(d as i64));
        i += 1;
    }
    proof {
        crate::yaml::lemma_models_of(out@);
        assert(crate::yaml::models_of(out@) =~= spec_dims_to_yaml(ds@));
    }
    out
}

/// The YAML form of a name list.
fn names_to_yaml(ss: &Vec<String>) -> (r: Vec<Yaml>)
    ensures
        crate::yaml::models_of(r@) == spec_strings_to_yaml(strings_view(ss@)),
{
    let n = ss.len();
    let mut out: Vec<Yaml> = Vec::new();
    let mut i: usize = 0;
    while i < n
        invariant
            0 <= i <= n,
            n == ss@.len(),
            out@.len() == i,
            forall|j: int| 0 <= j < i ==> (#[trigger] out@[j]).model() == YamlModel::Str(ss@[j]@),
        decreases n - i,
    {
        out.push(Yaml::Str(ss[i].clone()));
        i += 1;
    }
    proof {
        crate::yaml::lemma_models_of(out@);
        assert(crate::yaml::models_of(out@) =~= spec_strings_to_yaml(strings_view(ss@)));
    }
    out
}

impl Type {
    /// This tensor type's YAML form.
    pub fn to_yaml(&self) -> (r: Yaml)
        requires
            type_well_formed((*self)@),
        ensures
            r.model() == spec_type_to_yaml((*self)@),
    {
        let mut entries: Vec<(String, Yaml)> = Vec::new();
        entries.push((String::from_str("type"), Yaml::Str(self.ty.clone())));
        entries.push((String::from_str("dimensions"), Yaml::List(dims_to_yaml(&self.dimensions))));
        proof {
            crate::yaml::lemma_entry_models_of(entries@);
            assert(crate::yaml::entry_models_of(entries@) =~= seq![
                ("type"@, YamlModel::Str(self.ty@)),
                ("dimensions"@, YamlModel::List(spec_dims_to_yaml(self.dimensions@))),
            ]);
        }
        Yaml::Mapping(entries)
    }
}

/// The YAML form of a type list.
fn types_to_yaml(ts: &Vec<Type>) -> (r: Vec<Yaml>)
    requires
        types_well_formed(types_view(ts@)),
    ensures
        crate::yaml::models_of(r@) == spec_types_to_yaml(types_view(ts@)),
{
    let n = ts.len();
    let mut out: Vec<Yaml> = Vec::new();
    let mut i: usize = 0;
    while i < n
        invariant
            0 <= i <= n,
            n == ts@.len(),
            types_well_formed(types_view(ts@)),
            out@.len() == i,
            forall|j: int| 0 <= j < i ==> (#[trigger] out@[j]).model() == spec_type_to_yaml(ts@[j]@),
        decreases n - i,
    {
        proof {
            assert(type_well_formed(types_view(ts@)[i as int]));
        }
        out.push(ts[i].to_yaml());
        i += 1;
    }
    proof {
        crate::yaml::lemma_models_of(out@);
        assert(crate::yaml::models_of(out@) =~= spec_types_to_yaml(types_view(ts@)));
    }
    out
}

/// The YAML form of an argument table.
fn args_to_yaml(args: &Vec<(String, ArgValue)>) -> (r: Vec<(String, Yaml)>)
    ensures
        crate::yaml::entry_models_of(r@) == spec_args_to_yaml(arg_models_of(args@)),
{
    let n = args.len();
    let mut out: Vec<(String, Yaml)> = Vec::new();
    let mut i: usize = 0;
    while i < n
        invariant
            0 <= i <= n,
            n == args@.len(),
            out@.len() == i,
            forall|j: int|
                0 <= j < i ==> (#[trigger] out@[j]).0@ == args@[j].0@ && out@[j].1.model()
                    == spec_value_to_yaml(args@[j].1.model()),
        decreases n - i,
    {
        out.push((args[i].0.clone(), args[i].1.to_yaml()));
        i += 1;
    }
    proof {
        crate::yaml::lemma_entry_models_of(out@);
        assert(crate::yaml::entry_models_of(out@) =~= spec_args_to_yaml(arg_models_of(args@)));
    }
    out
}

impl Stage {
    /// This stage's YAML form.
    pub fn to_yaml(&self) -> (r: Yaml)
        requires
            stage_well_formed((*self)@),
        ensures
            r.model() == spec_stage_to_yaml((*self)@),
    {
        let mut entries: Vec<(String, Yaml)> = Vec::new();
        match self {
            Stage::Model { model, inputs, outputs } => {
                entries.push((String::from_str("model"), Yaml::Str(model.clone())));
                entries.push((String::from_str("inputs"), Yaml::List(names_to_yaml(inputs))));
                entries.push((String::from_str("outputs"), Yaml::List(types_to_yaml(outputs))));
            },
            Stage::ProcBlock { proc_block, inputs, outputs, args } => {
                entries.push((String::from_str("proc-block"), Yaml::Str(proc_block.render())));
                entries.push((String::from_str("inputs"), Yaml::List(names_to_yaml(inputs))));
                entries.push((String::from_str("outputs"), Yaml::List(types_to_yaml(outputs))));
                entries.push((String::from_str("args"), Yaml::Mapping(args_to_yaml(args))));
            },
            Stage::Capability { capability, outputs, args } => {
                entries.push((String::from_str("capability"), Yaml::Str(capability.clone())));
                entries.push((String::from_str("outputs"), Yaml::List(types_to_yaml(outputs))));
                entries.push((String::from_str("args"), Yaml::Mapping(args_to_yaml(args))));
            },
            Stage::Out { out, inputs, args } => {
                entries.push((String::from_str("out"), Yaml::Str(out.clone())));
                entries.push((String::from_str("inputs"), Yaml::List(names_to_yaml(inputs))));
                entries.push((String::from_str("args"), Yaml::Mapping(args_to_yaml(args))));
            },
        }
        proof {
            crate::yaml::lemma_entry_models_of(entries@);
            assert(YamlModel::Mapping(crate::yaml::entry_models_of(entries@))
                == spec_stage_to_yaml((*self)@)) by {
                assert(crate::yaml::entry_models_of(entries@)
                    =~= spec_stage_to_yaml((*self)@)->Mapping_0);
            }
        }
        Yaml::Mapping(entries)
    }
}

impl Document {
    /// This document's YAML form: serializing it and reading it back yields
    /// a structurally equal document (see [`lemma_document_round_trip`]).
    pub fn to_yaml(&self) -> (r: Yaml)
        requires
            document_well_formed((*self)@),
        ensures
            r.model() == spec_document_to_yaml((*self)@),
    {
        let mut stages: Vec<(String, Yaml)> = Vec::new();
        let n = self.pipeline.len();
        let mut i: usize = 0;
        while i < n
            invariant
                0 <= i <= n,
                n == self.pipeline@.len(),
                document_well_formed((*self)@),
                stages@.len() == i,
                forall|j: int|
                    0 <= j < i ==> (#[trigger] stages@[j]).0@ == self.pipeline@[j].0@
                        && stages@[j].1.model() == spec_stage_to_yaml(self.pipeline@[j].1@),
            decreases n - i,
        {
            proof {
                assert(stage_well_formed(pipeline_view(self.pipeline@)[i as int].1));
            }
            let name = self.pipeline[i].0.clone();
            let stage_yaml = self.pipeline[i].1.to_yaml();
            stages.push((name, stage_yaml));
            i += 1;
        }
        let mut entries: Vec<(String, Yaml)> = Vec::new();
        entries.push((String::from_str("image"), Yaml::Str(self.image.render())));
        entries.push((String::from_str("pipeline"), Yaml::Mapping(stages)));
        proof {
            crate::yaml::lemma_entry_models_of(entries@);
            crate::yaml::lemma_entry_models_of(entries@[1].1->Mapping_0@);
            assert(crate::yaml::entry_models_of(entries@[1].1->Mapping_0@) =~= spec_pipeline_to_yaml(
                (*self)@.pipeline,
            ));
            assert(crate::yaml::entry_models_of(entries@) =~= seq![
                ("image"@, YamlModel::Str(crate::path::spec_render((*self)@.image))),
                ("pipeline"@, YamlModel::Mapping(spec_pipeline_to_yaml((*self)@.pipeline))),
            ]);
        }
        Yaml::Mapping(entries)
    }
}

} // verus!
