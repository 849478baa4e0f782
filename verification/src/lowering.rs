//! Lowering: the surface AST becomes typed IR entities.
//!
//! Two ordered passes. Pass A walks the pipeline in sorted name order and
//! assigns each stage a stable identifier; empty names are rejected. Pass B
//! materializes one IR [`Node`] per stage and, for every entry in a stage's
//! `inputs` list, resolves `stage_name[.slot]` against the name table and
//! records a directed [`Edge`] from producer to consumer.

use vstd::prelude::*;
use vstd::string::StrSliceExecFns;
use vstd::string::StringExecFns;

use crate::diagnostics::Diagnostic;
use crate::diagnostics::Diagnostics;
use crate::diagnostics::spec_has_errors;
use crate::document::ArgValue;
use crate::document::ArgValueModel;
use crate::document::Document;
use crate::document::Stage;
use crate::document::StageModel;
use crate::document::Type;
use crate::document::arg_models_of;
use crate::document::document_well_formed;
use crate::document::keys_unique;
use crate::document::pipeline_view;
use crate::document::strings_view;
use crate::document::types_view;
use crate::ordering::entries_sorted;
use crate::ordering::entries_view;
use crate::ordering::lemma_sorted_insert_sorted;
use crate::ordering::sorted_insert;
use crate::ordering::spec_assoc;
use crate::ordering::spec_sorted_insert;
use crate::ordering::str_eq;
use crate::path::Path;
use crate::path::find_char;
use crate::path::lemma_find_char;

verus! {

// ---------------------------------------------------------------------------
// Lowered argument values
// ---------------------------------------------------------------------------

/// A lowered argument: a scalar literal, or a list of strings. Lists that
/// hold anything but strings are rejected during lowering.
#[derive(Debug, PartialEq)]
pub enum ArgumentValue {
    Int(i64),
    /// A floating-point scalar, as its decimal text.
    Float(String),
    Str(String),
    List(Vec<String>),
}

/// The mathematical shape of an [`ArgumentValue`].
pub enum ArgumentValueModel {
    Int(i64),
    Float(Seq<char>),
    Str(Seq<char>),
    List(Seq<Seq<char>>),
}

impl View for ArgumentValue {
    type V = ArgumentValueModel;

    open spec fn view(&self) -> ArgumentValueModel {
        match self {
            ArgumentValue::Int(i) => ArgumentValueModel::Int(*i),
            ArgumentValue::Float(t) => ArgumentValueModel::Float(t@),
            ArgumentValue::Str(s) => ArgumentValueModel::Str(s@),
            ArgumentValue::List(items) => ArgumentValueModel::List(strings_view(items@)),
        }
    }
}

/// Items of a list argument must all be strings.
pub open spec fn spec_string_items(items: Seq<ArgValueModel>) -> Option<Seq<Seq<char>>>
    decreases items.len(),
{
    if items.len() == 0 {
        Some(Seq::empty())
    } else {
        match (spec_string_items(items.drop_last()), items.last()) {
            (Some(ss), ArgValueModel::Str(s)) => Some(ss.push(s)),
            _ => None,
        }
    }
}

proof fn lemma_string_items_prefix_none(items: Seq<ArgValueModel>, i: int)
    requires
        0 <= i <= items.len(),
        spec_string_items(items.take(i)) is None,
    ensures
        spec_string_items(items) is None,
    decreases items.len() - i,
{
    if i < items.len() {
        assert(items.take(i + 1).drop_last() =~= items.take(i));
        lemma_string_items_prefix_none(items, i + 1);
    } else {
        assert(items.take(i) =~= items);
    }
}

/// What an argument value lowers to, if anything.
pub open spec fn spec_lower_value(v: ArgValueModel) -> Option<ArgumentValueModel> {
    match v {
        ArgValueModel::Int(i) => Some(ArgumentValueModel::Int(i)),
        ArgValueModel::Float(t) => Some(ArgumentValueModel::Float(t)),
        ArgValueModel::Str(s) => Some(ArgumentValueModel::Str(s)),
        ArgValueModel::List(items) => match spec_string_items(items) {
            Some(ss) => Some(ArgumentValueModel::List(ss)),
            None => None,
        },
    }
}

impl ArgumentValue {
    /// Lower one argument value; `None` if a list holds a non-string.
    pub fn of_value(v: &ArgValue) -> (r: Option<ArgumentValue>)
        ensures
            match r {
                Some(a) => spec_lower_value((*v).model()) == Some(a@),
                None => spec_lower_value((*v).model()) is None,
            },
    {
        match v {
            ArgValue::Int(i) => Some(ArgumentValue::Int(*i)),
            ArgValue::Float(t) => Some(ArgumentValue::Float(t.clone())),
            ArgValue::Str(s) => Some(ArgumentValue::Str(s.clone())),
            ArgValue::List(items) => {
                proof {
                    crate::document::lemma_value_models_of(items@);
                }
                let ghost im = crate::document::value_models_of(items@);
                let n = items.len();
                let mut out: Vec<String> = Vec::new();
                proof {
                    assert(strings_view(out@) =~= Seq::<Seq<char>>::empty());
                }
                let mut i: usize = 0;
                while i < n
                    invariant
                        0 <= i <= n,
                        n == items@.len(),
                        im == crate::document::value_models_of(items@),
                        im.len() == n,
                        forall|j: int| 0 <= j < n ==> im[j] == items@[j].model(),
                        spec_string_items(im.take(i as int)) == Some(strings_view(out@)),
                        (*v).model() == ArgValueModel::List(im),
                    decreases n - i,
                {
                    proof {
                        assert(im.take(i as int + 1).drop_last() =~= im.take(i as int));
                        assert(im.take(i as int + 1).last() == im[i as int]);
                    }
                    let ghost prev = out@;
                    match &items[i] {
                        ArgValue::Str(s) => {
                            out.push(s.clone());
                            proof {
                                assert(strings_view(out@) =~= strings_view(prev).push(s@));
                            }
                        },
                        _ => {
                            proof {
                                lemma_string_items_prefix_none(im, i as int + 1);
                            }
                            return None;
                        },
                    }
                    i += 1;
                }
                proof {
                    assert(im.take(n as int) =~= im);
                }
                Some(ArgumentValue::List(out))
            },
        }
    }
}

/// The view of a lowered parameter table.
pub open spec fn params_view(ps: Seq<(String, ArgumentValue)>) -> Seq<
    (Seq<char>, ArgumentValueModel),
> {
    ps.map_values(|e: (String, ArgumentValue)| (e.0@, e.1@))
}

/// The parameters a stage's arguments lower to: arguments that do not lower
/// are left out (each is reported as a diagnostic).
pub open spec fn spec_parameters(args: Seq<(Seq<char>, ArgValueModel)>) -> Seq<
    (Seq<char>, ArgumentValueModel),
>
    decreases args.len(),
{
    if args.len() == 0 {
        Seq::empty()
    } else {
        let rest = spec_parameters(args.drop_last());
        match spec_lower_value(args.last().1) {
            Some(a) => rest.push((args.last().0, a)),
            None => rest,
        }
    }
}

/// Whether some argument of the table does not lower.
pub open spec fn args_reject(args: Seq<(Seq<char>, ArgValueModel)>) -> bool {
    exists|i: int| 0 <= i < args.len() && spec_lower_value((#[trigger] args[i]).1) is None
}

/// Whether some argument of the stage does not lower (a sink's arguments
/// are dropped, not lowered).
pub open spec fn stage_args_reject(s: StageModel) -> bool {
    match s {
        StageModel::ProcBlock { args, .. } => args_reject(args),
        StageModel::Capability { args, .. } => args_reject(args),
        StageModel::Model { .. } => false,
        StageModel::Out { .. } => false,
    }
}

/// Lower a stage's argument table; an error is reported exactly when some
/// argument does not lower.
pub fn to_parameters(args: &Vec<(String, ArgValue)>, diags: &mut Diagnostics) -> (r: Vec<
    (String, ArgumentValue),
>)
    ensures
        params_view(r@) == spec_parameters(arg_models_of(args@)),
        old(diags)@.is_prefix_of(final(diags)@),
        spec_has_errors(final(diags)@) == (spec_has_errors(old(diags)@) || args_reject(
            arg_models_of(args@),
        )),
        !args_reject(arg_models_of(args@)) ==> final(diags)@ == old(diags)@,
{
    let ghost am = arg_models_of(args@);
    let n = args.len();
    let mut out: Vec<(String, ArgumentValue)> = Vec::new();
    proof {
        assert(params_view(out@) =~= Seq::<(Seq<char>, ArgumentValueModel)>::empty());
    }
    let mut i: usize = 0;
    while i < n
        invariant
            0 <= i <= n,
            n == args@.len(),
            am == arg_models_of(args@),
            am.len() == n,
            params_view(out@) == spec_parameters(am.take(i as int)),
            old(diags)@.is_prefix_of(diags@),
            spec_has_errors(diags@) == (spec_has_errors(old(diags)@) || exists|j: int|
                0 <= j < i && spec_lower_value((#[trigger] am[j]).1) is None),
            (forall|j: int| 0 <= j < i ==> spec_lower_value((#[trigger] am[j]).1) is Some)
                ==> diags@ == old(diags)@,
        decreases n - i,
    {
        proof {
            assert(am.take(i as int + 1).drop_last() =~= am.take(i as int));
            assert(am.take(i as int + 1).last() == am[i as int]);
            assert(am[i as int] == (args@[i as int].0@, args@[i as int].1.model()));
        }
        let ghost prev = out@;
        match ArgumentValue::of_value(&args[i].1) {
            Some(a) => {
                out.push((args[i].0.clone(), a));
                proof {
                    assert(params_view(out@) =~= params_view(prev).push(
                        (out@.last().0@, out@.last().1@),
                    ));
                }
            },
            None => {
                let mut message = String::from_str("the argument \"");
                message.append(args[i].0.as_str());
                message.append("\" must be an integer, float, string or list of strings");
                let ghost before = diags@;
                diags.push(Diagnostic::error(message));
                proof {
                    assert(old(diags)@.is_prefix_of(diags@)) by {
                        assert(old(diags)@ =~= diags@.subrange(0, old(diags)@.len() as int));
                    }
                    assert(diags@[before.len() as int].severity.spec_is_fatal());
                }
            },
        }
        i += 1;
    }
    proof {
        assert(am.take(n as int) =~= am);
    }
    out
}

// ---------------------------------------------------------------------------
// IR entities
// ---------------------------------------------------------------------------

/// The kind component of a stage entity.
#[derive(Debug, PartialEq)]
pub enum StageKind {
    /// A data source (sensor capability).
    Source { kind: String, parameters: Vec<(String, ArgumentValue)> },
    /// An ML model, named by the file it is loaded from.
    Model { model_file: String },
    /// A processing block, named by its dependency path.
    ProcBlock { path: Path, parameters: Vec<(String, ArgumentValue)> },
    /// A terminal output.
    Sink { kind: String },
}

/// One IR entity: the stage's name, its kind, and its `Inputs`/`Outputs`
/// components. `inputs` holds the references as written (`stage[.slot]`).
#[derive(Debug, PartialEq)]
pub struct Node {
    pub name: String,
    pub kind: StageKind,
    pub inputs: Vec<String>,
    pub outputs: Vec<Type>,
}

/// A directed dataflow edge: output `slot` of `producer` feeds input
/// `position` of `consumer`. Indices refer to [`Rune::nodes`].
#[derive(Debug, Clone, Copy, PartialEq, Eq, Structural)]
pub struct Edge {
    pub producer: usize,
    pub slot: usize,
    pub consumer: usize,
    pub position: usize,
}

/// The lowered world: one node per stage (in sorted name order) and one
/// edge per declared input adjacency.
#[derive(Debug, PartialEq)]
pub struct Rune {
    pub nodes: Vec<Node>,
    pub edges: Vec<Edge>,
}

/// The name table of Pass A: stage name to its position in the document's
/// pipeline, sorted by name.
#[derive(Debug, PartialEq)]
pub struct NameTable {
    pub entries: Vec<(String, usize)>,
}

impl NameTable {
    /// The identifier registered for `name`, if any.
    pub fn get_id(&self, name: &str) -> (r: Option<usize>)
        ensures
            match r {
                Some(id) => spec_assoc(entries_view(self.entries@), name@) == Some(id),
                None => spec_assoc(entries_view(self.entries@), name@) is None,
            },
    {
        let ghost em = entries_view(self.entries@);
        let n = self.entries.len();
        let mut found: Option<usize> = None;
        let mut i: usize = 0;
        while i < n
            invariant
                0 <= i <= n,
                n == self.entries@.len(),
                em == entries_view(self.entries@),
                em.len() == n,
                match found {
                    Some(id) => spec_assoc(em.take(i as int), name@) == Some(id),
                    None => spec_assoc(em.take(i as int), name@) is None,
                },
            decreases n - i,
        {
            proof {
                assert(em.take(i as int + 1).drop_last() =~= em.take(i as int));
                assert(em.take(i as int + 1).last() == em[i as int]);
                assert(em[i as int] == (self.entries@[i as int].0@, self.entries@[i as int].1));
            }
            if str_eq(self.entries[i].0.as_str(), name) {
                found = Some(self.entries[i].1);
            }
            i += 1;
        }
        proof {
            assert(em.take(n as int) =~= em);
        }
        found
    }
}

// ---------------------------------------------------------------------------
// Pass A: name registration
// ---------------------------------------------------------------------------

/// The name table Pass A builds: every stage name, keyed to its position in
/// the pipeline, sorted by name.
pub open spec fn spec_name_table(p: Seq<(Seq<char>, StageModel)>) -> Seq<(Seq<char>, usize)>
    decreases p.len(),
{
    if p.len() == 0 {
        Seq::empty()
    } else {
        spec_sorted_insert(spec_name_table(p.drop_last()), p.last().0, (p.len() - 1) as usize)
    }
}

/// The name table is sorted; every entry points at the pipeline entry of
/// its name; with distinct names it is complete.
pub proof fn lemma_name_table(p: Seq<(Seq<char>, StageModel)>)
    requires
        p.len() <= usize::MAX,
    ensures
        entries_sorted(spec_name_table(p)),
        forall|k: int|
            0 <= k < spec_name_table(p).len() ==> (#[trigger] spec_name_table(p)[k]).1 < p.len()
                && p[spec_name_table(p)[k].1 as int].0 == spec_name_table(p)[k].0,
        keys_unique(p) ==> spec_name_table(p).len() == p.len(),
    decreases p.len(),
{
    if p.len() > 0 {
        lemma_name_table(p.drop_last());
        let prev = spec_name_table(p.drop_last());
        let out = spec_name_table(p);
        lemma_sorted_insert_sorted(prev, p.last().0, (p.len() - 1) as usize);
        assert forall|k: int| 0 <= k < out.len() implies (#[trigger] out[k]).1 < p.len()
            && p[out[k].1 as int].0 == out[k].0 by {
            lemma_name_table_member(prev, p.last().0, (p.len() - 1) as usize, k);
            if !(exists|m: int| 0 <= m < prev.len() && out[k] == prev[m]) {
                assert(out[k] == (p.last().0, (p.len() - 1) as usize));
            } else {
                let m = choose|m: int| 0 <= m < prev.len() && out[k] == prev[m];
                assert(p.drop_last()[prev[m].1 as int] == p[prev[m].1 as int]);
            }
        }
        if keys_unique(p) {
            assert(keys_unique(p.drop_last())) by {
                assert forall|i: int, j: int|
                    0 <= i < j < p.drop_last().len() implies (#[trigger] p.drop_last()[i].0) != (
                    #[trigger] p.drop_last()[j].0) by {
                    assert(p.drop_last()[i] == p[i] && p.drop_last()[j] == p[j]);
                }
            }
            assert(forall|m: int| 0 <= m < prev.len() ==> (#[trigger] prev[m]).0 != p.last().0)
                by {
                assert forall|m: int| 0 <= m < prev.len() implies (#[trigger] prev[m]).0
                    != p.last().0 by {
                    assert(p.drop_last()[prev[m].1 as int].0 == prev[m].0);
                    assert(p[prev[m].1 as int] == p.drop_last()[prev[m].1 as int]);
                    assert(p[prev[m].1 as int].0 != p[p.len() - 1].0);
                }
            }
            lemma_sorted_insert_grows(prev, p.last().0, (p.len() - 1) as usize);
        }
    }
}

/// Each entry of an insertion's result is the new pair or an old entry.
pub proof fn lemma_name_table_member(
    s: Seq<(Seq<char>, usize)>,
    k: Seq<char>,
    v: usize,
    i: int,
)
    requires
        0 <= i < spec_sorted_insert(s, k, v).len(),
    ensures
        spec_sorted_insert(s, k, v)[i] == (k, v) || exists|m: int|
            0 <= m < s.len() && spec_sorted_insert(s, k, v)[i] == s[m],
    decreases s.len(),
{
    let out = spec_sorted_insert(s, k, v);
    if s.len() == 0 {
        assert(out[i] == (k, v));
    } else if crate::ordering::lex_lt(k, s[0].0) {
        if i > 0 {
            assert(out[i] == s[i - 1]);
        } else {
            assert(out[0] == (k, v));
        }
    } else if !crate::ordering::lex_lt(s[0].0, k) {
        if i > 0 {
            assert(out[i] == s.drop_first()[i - 1]);
            assert(s.drop_first()[i - 1] == s[i]);
        } else {
            assert(out[0] == (k, v));
        }
    } else {
        if i == 0 {
            assert(out[0] == s[0]);
        } else {
            lemma_name_table_member(s.drop_first(), k, v, i - 1);
            assert(out[i] == spec_sorted_insert(s.drop_first(), k, v)[i - 1]);
            if !(spec_sorted_insert(s.drop_first(), k, v)[i - 1] == (k, v)) {
                let m = choose|m: int|
                    0 <= m < s.drop_first().len() && spec_sorted_insert(s.drop_first(), k, v)[i
                        - 1] == s.drop_first()[m];
                assert(s.drop_first()[m] == s[m + 1]);
            }
        }
    }
}

/// The inserted pair is in the result.
proof fn lemma_sorted_insert_has(s: Seq<(Seq<char>, usize)>, k: Seq<char>, v: usize)
    ensures
        exists|m: int|
            0 <= m < spec_sorted_insert(s, k, v).len() && spec_sorted_insert(s, k, v)[m] == (
            k,
            v,
            ),
    decreases s.len(),
{
    let out = spec_sorted_insert(s, k, v);
    if s.len() == 0 {
        assert(out[0] == (k, v));
    } else if crate::ordering::lex_lt(k, s[0].0) {
        assert(out[0] == (k, v));
    } else if !crate::ordering::lex_lt(s[0].0, k) {
        assert(out[0] == (k, v));
    } else {
        lemma_sorted_insert_has(s.drop_first(), k, v);
        let m = choose|m: int|
            0 <= m < spec_sorted_insert(s.drop_first(), k, v).len() && spec_sorted_insert(
                s.drop_first(),
                k,
                v,
            )[m] == (k, v);
        assert(out[m + 1] == (k, v));
    }
}

/// An entry whose key differs from the inserted one is kept.
proof fn lemma_sorted_insert_keeps(s: Seq<(Seq<char>, usize)>, k: Seq<char>, v: usize, j: int)
    requires
        0 <= j < s.len(),
        s[j].0 != k,
    ensures
        exists|m: int|
            0 <= m < spec_sorted_insert(s, k, v).len() && spec_sorted_insert(s, k, v)[m] == s[j],
    decreases s.len(),
{
    let out = spec_sorted_insert(s, k, v);
    if crate::ordering::lex_lt(k, s[0].0) {
        assert(out[j + 1] == s[j]);
    } else if !crate::ordering::lex_lt(s[0].0, k) {
        crate::ordering::lemma_lex_trichotomy(s[0].0, k);
        assert(j > 0);
        assert(out[j] == s.drop_first()[j - 1]);
        assert(out[j] == s[j]);
    } else {
        if j == 0 {
            assert(out[0] == s[0]);
        } else {
            assert(s.drop_first()[j - 1] == s[j]);
            lemma_sorted_insert_keeps(s.drop_first(), k, v, j - 1);
            let m = choose|m: int|
                0 <= m < spec_sorted_insert(s.drop_first(), k, v).len() && spec_sorted_insert(
                    s.drop_first(),
                    k,
                    v,
                )[m] == s.drop_first()[j - 1];
            assert(out[m + 1] == s[j]);
        }
    }
}

/// With distinct names, every stage appears in the name table.
pub proof fn lemma_name_table_complete(p: Seq<(Seq<char>, StageModel)>)
    requires
        keys_unique(p),
        p.len() <= usize::MAX,
    ensures
        forall|idx: int|
            0 <= idx < p.len() ==> exists|m: int|
                0 <= m < spec_name_table(p).len() && spec_name_table(p)[m] == (
                (#[trigger] p[idx]).0,
                idx as usize,
                ),
    decreases p.len(),
{
    if p.len() > 0 {
        let prev = spec_name_table(p.drop_last());
        let out = spec_name_table(p);
        assert(keys_unique(p.drop_last())) by {
            assert(forall|i: int, j: int|
                0 <= i < j < p.drop_last().len() ==> (#[trigger] p.drop_last()[i]) == p[i] && (
                #[trigger] p.drop_last()[j]) == p[j]);
        }
        lemma_name_table_complete(p.drop_last());
        lemma_name_table(p.drop_last());
        assert forall|idx: int| 0 <= idx < p.len() implies exists|m: int|
            0 <= m < out.len() && out[m] == ((#[trigger] p[idx]).0, idx as usize) by {
            if idx == p.len() - 1 {
                lemma_sorted_insert_has(prev, p.last().0, (p.len() - 1) as usize);
            } else {
                assert(p.drop_last()[idx] == p[idx]);
                let m0 = choose|m0: int|
                    0 <= m0 < prev.len() && prev[m0] == (p[idx].0, idx as usize);
                assert(prev[m0].0 != p.last().0) by {
                    assert(p[idx].0 != p[p.len() - 1].0);
                }
                lemma_sorted_insert_keeps(prev, p.last().0, (p.len() - 1) as usize, m0);
            }
        }
    }
}

/// Inserting a fresh key grows the table by one./// Inserting a fresh key grows the table by one.
proof fn lemma_sorted_insert_grows(s: Seq<(Seq<char>, usize)>, k: Seq<char>, v: usize)
    requires
        forall|m: int| 0 <= m < s.len() ==> (#[trigger] s[m]).0 != k,
    ensures
        spec_sorted_insert(s, k, v).len() == s.len() + 1,
    decreases s.len(),
{
    if s.len() > 0 {
        if crate::ordering::lex_lt(k, s[0].0) {
        } else if !crate::ordering::lex_lt(s[0].0, k) {
            crate::ordering::lemma_lex_trichotomy(k, s[0].0);
            assert(s[0].0 == k);
        } else {
            assert forall|m: int| 0 <= m < s.drop_first().len() implies (
            #[trigger] s.drop_first()[m]).0 != k by {
                assert(s.drop_first()[m] == s[m + 1]);
            }
            lemma_sorted_insert_grows(s.drop_first(), k, v);
        }
    }
}

// ---------------------------------------------------------------------------
// The lowering context
// ---------------------------------------------------------------------------

/// Whether `nodes` materializes the pipeline: one node per name-table
/// entry, in sorted name order, carrying the stage's components.
pub open spec fn nodes_represent(nodes: Seq<Node>, p: Seq<(Seq<char>, StageModel)>) -> bool {
    let table = spec_name_table(p);
    &&& nodes.len() == table.len()
    &&& forall|k: int|
        0 <= k < nodes.len() ==> table[k].1 < p.len() && node_represents(
            #[trigger] nodes[k],
            table[k].0,
            p[table[k].1 as int].1,
        )
}

/// Whether `n` carries exactly the components of stage `s` named `name`.
pub open spec fn node_represents(n: Node, name: Seq<char>, s: StageModel) -> bool {
    &&& n.name@ == name
    &&& match s {
        StageModel::Model { model, inputs, outputs } => {
            &&& n.kind matches StageKind::Model { model_file } && model_file@ == model
            &&& strings_view(n.inputs@) == inputs
            &&& types_view(n.outputs@) == outputs
        },
        StageModel::ProcBlock { proc_block, inputs, outputs, args } => {
            &&& n.kind matches StageKind::ProcBlock { path, parameters } && path@ == proc_block
                && params_view(parameters@) == spec_parameters(args)
            &&& strings_view(n.inputs@) == inputs
            &&& types_view(n.outputs@) == outputs
        },
        StageModel::Capability { capability, outputs, args } => {
            &&& n.kind matches StageKind::Source { kind, parameters } && kind@ == capability
                && params_view(parameters@) == spec_parameters(args)
            &&& n.inputs@.len() == 0
            &&& types_view(n.outputs@) == outputs
        },
        StageModel::Out { out, inputs, args } => {
            &&& n.kind matches StageKind::Sink { kind } && kind@ == out
            &&& strings_view(n.inputs@) == inputs
            &&& n.outputs@.len() == 0
        },
    }
}

/// Whether the reference at input `pos` of node `c` parses and names a
/// registered stage.
pub open spec fn input_resolvable(nodes: Seq<Node>, c: int, pos: int) -> bool {
    &&& spec_input_ref(nodes[c].inputs@[pos]@) is Some
    &&& exists|p: int|
        0 <= p < nodes.len() && (#[trigger] nodes[p]).name@ == (spec_input_ref(
            nodes[c].inputs@[pos]@,
        )->0).0
}

/// Whether an edge was recorded for input `pos` of node `c`.
pub open spec fn edge_recorded(edges: Seq<Edge>, c: int, pos: int) -> bool {
    exists|k: int|
        0 <= k < edges.len() && (#[trigger] edges[k]).consumer == c && edges[k].position == pos
}

/// Every resolvable input reference has its edge, and nothing else does.
pub open spec fn edges_complete(nodes: Seq<Node>, edges: Seq<Edge>) -> bool {
    forall|c: int, pos: int|
        0 <= c < nodes.len() && 0 <= pos < nodes[c].inputs@.len() ==> (input_resolvable(
            nodes,
            c,
            pos,
        ) <==> #[trigger] edge_recorded(edges, c, pos))
}

/// Whether some input reference fails to parse or to name a stage.
pub open spec fn inputs_reject(nodes: Seq<Node>) -> bool {
    exists|c: int, pos: int|
        #![trigger input_resolvable(nodes, c, pos)]
        0 <= c < nodes.len() && 0 <= pos < nodes[c].inputs@.len() && !input_resolvable(
            nodes,
            c,
            pos,
        )
}

/// Every edge points inside the node table and records exactly one declared
/// input reference of its consumer.
pub open spec fn edges_sound(nodes: Seq<Node>, edges: Seq<Edge>) -> bool {
    forall|k: int| 0 <= k < edges.len() ==> edge_sound(nodes, #[trigger] edges[k])
}

pub open spec fn edge_sound(nodes: Seq<Node>, e: Edge) -> bool {
    &&& e.producer < nodes.len()
    &&& e.consumer < nodes.len()
    &&& e.position < nodes[e.consumer as int].inputs.len()
    &&& spec_input_ref(nodes[e.consumer as int].inputs@[e.position as int]@) matches Some(r)
        && r.0 == nodes[e.producer as int].name@ && r.1 == e.slot
}

/// The shared state of the lowering passes.
#[derive(Debug)]
pub struct Context {
    pub rune: Rune,
    pub diags: Diagnostics,
    pub names: NameTable,
}

impl Context {
    /// An empty world.
    pub fn new() -> (r: Context)
        ensures
            r.rune.nodes@.len() == 0,
            r.rune.edges@.len() == 0,
            r.diags@.len() == 0,
            r.names.entries@.len() == 0,
    {
        Context {
            rune: Rune { nodes: Vec::new(), edges: Vec::new() },
            diags: Diagnostics::new(),
            names: NameTable { entries: Vec::new() },
        }
    }

    /// Pass A: register every stage name, in sorted order; an error is
    /// reported exactly when some stage name is empty.
    pub fn register_names(&mut self, pipeline: &Vec<(String, Stage)>)
        requires
            old(self).names.entries@.len() == 0,
        ensures
            entries_view(final(self).names.entries@) == spec_name_table(
                pipeline_view(pipeline@),
            ),
            final(self).rune == old(self).rune,
            old(self).diags@.is_prefix_of(final(self).diags@),
            spec_has_errors(final(self).diags@) == (spec_has_errors(old(self).diags@)
                || exists|i: int|
                0 <= i < pipeline_view(pipeline@).len() && (#[trigger] pipeline_view(
                    pipeline@,
                )[i]).0.len() == 0),
            (forall|i: int|
                0 <= i < pipeline_view(pipeline@).len() ==> (#[trigger] pipeline_view(
                    pipeline@,
                )[i]).0.len() > 0) ==> final(self).diags@ == old(self).diags@,
    {
        let ghost pv = pipeline_view(pipeline@);
        let n = pipeline.len();
        proof {
            assert(entries_view(self.names.entries@) =~= Seq::<(Seq<char>, usize)>::empty());
            assert(pv.take(0) =~= Seq::<(Seq<char>, StageModel)>::empty());
        }
        let mut i: usize = 0;
        while i < n
            invariant
                0 <= i <= n,
                n == pipeline@.len(),
                pv == pipeline_view(pipeline@),
                pv.len() == n,
                entries_view(self.names.entries@) == spec_name_table(pv.take(i as int)),
                self.rune == old(self).rune,
                old(self).diags@.is_prefix_of(self.diags@),
                spec_has_errors(self.diags@) == (spec_has_errors(old(self).diags@)
                    || exists|j: int| 0 <= j < i && (#[trigger] pv[j]).0.len() == 0),
                (forall|j: int| 0 <= j < i ==> (#[trigger] pv[j]).0.len() > 0) ==> self.diags@
                    == old(self).diags@,
            decreases n - i,
        {
            proof {
                assert(pv.take(i as int + 1).drop_last() =~= pv.take(i as int));
                assert(pv.take(i as int + 1).last() == pv[i as int]);
                assert(pv[i as int] == (pipeline@[i as int].0@, pipeline@[i as int].1@));
            }
            if pipeline[i].0.as_str().is_empty() {
                let ghost before = self.diags@;
                self.diags.push(
                    Diagnostic::error(String::from_str("a stage name must not be empty")),
                );
                proof {
                    assert(old(self).diags@.is_prefix_of(self.diags@)) by {
                        assert(old(self).diags@ =~= self.diags@.subrange(
                            0,
                            old(self).diags@.len() as int,
                        ));
                    }
                    assert(self.diags@[before.len() as int].severity.spec_is_fatal());
                    assert(pv[i as int].0.len() == 0);
                }
            }
            sorted_insert(&mut self.names.entries, pipeline[i].0.clone(), i);
            i += 1;
        }
        proof {
            assert(pv.take(n as int) =~= pv);
        }
    }

    /// Pass B, first half: materialize one node per registered name, in
    /// sorted name order; an error is reported exactly when some stage
    /// holds an argument that does not lower.
    pub fn register_stages(&mut self, pipeline: &Vec<(String, Stage)>)
        requires
            entries_view(old(self).names.entries@) == spec_name_table(pipeline_view(pipeline@)),
            old(self).rune.nodes@.len() == 0,
            keys_unique(pipeline_view(pipeline@)),
        ensures
            final(self).names == old(self).names,
            final(self).rune.edges == old(self).rune.edges,
            old(self).diags@.is_prefix_of(final(self).diags@),
            nodes_represent(final(self).rune.nodes@, pipeline_view(pipeline@)),
            spec_has_errors(final(self).diags@) == (spec_has_errors(old(self).diags@)
                || exists|i: int|
                0 <= i < pipeline_view(pipeline@).len() && stage_args_reject(
                    (#[trigger] pipeline_view(pipeline@)[i]).1,
                )),
            (forall|i: int|
                0 <= i < pipeline_view(pipeline@).len() ==> !stage_args_reject(
                    (#[trigger] pipeline_view(pipeline@)[i]).1,
                )) ==> final(self).diags@ == old(self).diags@,
    {
        let ghost pv = pipeline_view(pipeline@);
        let ghost table = spec_name_table(pv);
        let plen = pipeline.len();
        proof {
            assert(pv.len() == pipeline@.len());
            assert(pipeline@.len() <= usize::MAX) by {
                assert(plen as int == pipeline@.len());
            }
            lemma_name_table(pv);
            lemma_name_table_complete(pv);
        }
        let n = self.names.entries.len();
        let mut k: usize = 0;
        while k < n
            invariant
                0 <= k <= n,
                n == self.names.entries@.len(),
                pv == pipeline_view(pipeline@),
                pv.len() == pipeline@.len(),
                table == spec_name_table(pv),
                entries_view(self.names.entries@) == table,
                table.len() == n,
                forall|m: int|
                    0 <= m < n ==> (#[trigger] table[m]).1 < pv.len() && pv[table[m].1 as int].0
                        == table[m].0,
                self.names == old(self).names,
                self.rune.edges == old(self).rune.edges,
                old(self).diags@.is_prefix_of(self.diags@),
                spec_has_errors(self.diags@) == (spec_has_errors(old(self).diags@)
                    || exists|m: int|
                    0 <= m < k && stage_args_reject(pv[(#[trigger] table[m]).1 as int].1)),
                (forall|m: int|
                    0 <= m < k ==> !stage_args_reject(pv[(#[trigger] table[m]).1 as int].1))
                    ==> self.diags@ == old(self).diags@,
                self.rune.nodes@.len() == k,
                forall|m: int|
                    0 <= m < k ==> node_represents(
                        #[trigger] self.rune.nodes@[m],
                        table[m].0,
                        pv[table[m].1 as int].1,
                    ),
            decreases n - k,
        {
            proof {
                assert(entries_view(self.names.entries@)[k as int] == (
                    self.names.entries@[k as int].0@,
                    self.names.entries@[k as int].1,
                ));
            }
            let name = self.names.entries[k].0.clone();
            let idx = self.names.entries[k].1;
            proof {
                assert(table[k as int].1 == idx);
                assert(pv[idx as int] == (pipeline@[idx as int].0@, pipeline@[idx as int].1@));
            }
            let node = build_node(name, &pipeline[idx].1, &mut self.diags);
            self.rune.nodes.push(node);
            k += 1;
        }
        proof {
            // the table is complete, so "some registered stage rejects" is
            // "some pipeline stage rejects"
            assert((exists|m: int|
                0 <= m < n && stage_args_reject(pv[(#[trigger] table[m]).1 as int].1)) == (
            exists|i: int|
                0 <= i < pv.len() && stage_args_reject((#[trigger] pv[i]).1))) by {
                if exists|m: int|
                    0 <= m < n && stage_args_reject(pv[(#[trigger] table[m]).1 as int].1) {
                    let m = choose|m: int|
                        0 <= m < n && stage_args_reject(pv[(#[trigger] table[m]).1 as int].1);
                    assert(stage_args_reject(pv[table[m].1 as int].1));
                }
                if exists|i: int| 0 <= i < pv.len() && stage_args_reject((#[trigger] pv[i]).1) {
                    let i = choose|i: int|
                        0 <= i < pv.len() && stage_args_reject((#[trigger] pv[i]).1);
                    let m = choose|m: int|
                        0 <= m < table.len() && table[m] == (pv[i].0, i as usize);
                    assert(table[m].1 as int == i);
                    assert(stage_args_reject(pv[table[m].1 as int].1));
                }
            }
            if forall|i: int|
                0 <= i < pv.len() ==> !stage_args_reject((#[trigger] pv[i]).1) {
                assert forall|m: int|
                    0 <= m < n implies !stage_args_reject(pv[(#[trigger] table[m]).1 as int].1) by {
                    assert(!stage_args_reject(pv[table[m].1 as int].1));
                }
            }
        }
    }

    /// Pass B, second half: resolve every declared input reference and
    /// record the dataflow edges: every reference that parses and names a
    /// registered stage yields exactly its edge, and an error is reported
    /// exactly when some reference does not.
    pub fn construct_pipeline(&mut self)
        requires
            old(self).rune.edges@.len() == 0,
        ensures
            final(self).rune.nodes == old(self).rune.nodes,
            final(self).names == old(self).names,
            old(self).diags@.is_prefix_of(final(self).diags@),
            edges_sound(final(self).rune.nodes@, final(self).rune.edges@),
            edges_complete(final(self).rune.nodes@, final(self).rune.edges@),
            spec_has_errors(final(self).diags@) == (spec_has_errors(old(self).diags@)
                || inputs_reject(final(self).rune.nodes@)),
            !inputs_reject(final(self).rune.nodes@) ==> final(self).diags@ == old(self).diags@,
    {
        let ghost nv = old(self).rune.nodes@;
        let n = self.rune.nodes.len();
        let mut edges: Vec<Edge> = Vec::new();
        let mut c: usize = 0;
        while c < n
            invariant
                0 <= c <= n,
                n == self.rune.nodes@.len(),
                self.rune.nodes == old(self).rune.nodes,
                nv == self.rune.nodes@,
                self.rune.edges == old(self).rune.edges,
                self.names == old(self).names,
                old(self).diags@.is_prefix_of(self.diags@),
                edges_sound(nv, edges@),
                forall|k: int| 0 <= k < edges@.len() ==> (#[trigger] edges@[k]).consumer < c,
                forall|cc: int, pp: int|
                    0 <= cc < c && 0 <= pp < nv[cc].inputs@.len() ==> (input_resolvable(
                        nv,
                        cc,
                        pp,
                    ) <==> #[trigger] edge_recorded(edges@, cc, pp)),
                spec_has_errors(self.diags@) == (spec_has_errors(old(self).diags@)
                    || exists|cc: int, pp: int|
                    #![trigger input_resolvable(nv, cc, pp)]
                    0 <= cc < c && 0 <= pp < nv[cc].inputs@.len() && !input_resolvable(
                        nv,
                        cc,
                        pp,
                    )),
                (forall|cc: int, pp: int|
                    #![trigger input_resolvable(nv, cc, pp)]
                    0 <= cc < c && 0 <= pp < nv[cc].inputs@.len() ==> input_resolvable(
                        nv,
                        cc,
                        pp,
                    )) ==> self.diags@ == old(self).diags@,
            decreases n - c,
        {
            let m = self.rune.nodes[c].inputs.len();
            let mut pos: usize = 0;
            while pos < m
                invariant
                    0 <= c < n,
                    0 <= pos <= m,
                    n == self.rune.nodes@.len(),
                    m == self.rune.nodes@[c as int].inputs@.len(),
                    self.rune.nodes == old(self).rune.nodes,
                    nv == self.rune.nodes@,
                    self.rune.edges == old(self).rune.edges,
                    self.names == old(self).names,
                    old(self).diags@.is_prefix_of(self.diags@),
                    edges_sound(nv, edges@),
                    forall|k: int|
                        0 <= k < edges@.len() ==> (#[trigger] edges@[k]).consumer < c || (
                        edges@[k].consumer == c && edges@[k].position < pos),
                    forall|cc: int, pp: int|
                        (0 <= cc < c && 0 <= pp < nv[cc].inputs@.len()) || (cc == c && 0 <= pp
                            < pos) ==> (input_resolvable(nv, cc, pp)
                            <==> #[trigger] edge_recorded(edges@, cc, pp)),
                    spec_has_errors(self.diags@) == (spec_has_errors(old(self).diags@)
                        || exists|cc: int, pp: int|
                        #![trigger input_resolvable(nv, cc, pp)]
                        ((0 <= cc < c && 0 <= pp < nv[cc].inputs@.len()) || (cc == c && 0 <= pp
                            < pos)) && !input_resolvable(nv, cc, pp)),
                    (forall|cc: int, pp: int|
                        #![trigger input_resolvable(nv, cc, pp)]
                        (0 <= cc < c && 0 <= pp < nv[cc].inputs@.len()) || (cc == c && 0 <= pp
                            < pos) ==> input_resolvable(nv, cc, pp)) ==> self.diags@ == old(
                        self,
                    ).diags@,
                decreases m - pos,
            {
                let reference = &self.rune.nodes[c].inputs[pos];
                match parse_input_ref(reference.as_str()) {
                    None => {
                        proof {
                            assert(!input_resolvable(nv, c as int, pos as int));
                        }
                        let mut message = String::from_str("the input \"");
                        message.append(self.rune.nodes[c].inputs[pos].as_str());
                        message.append("\" is not a valid stage reference");
                        let ghost before = self.diags@;
                        self.diags.push(Diagnostic::error(message));
                        proof {
                            assert(old(self).diags@.is_prefix_of(self.diags@)) by {
                                assert(old(self).diags@ =~= self.diags@.subrange(
                                    0,
                                    old(self).diags@.len() as int,
                                ));
                            }
                            assert(self.diags@[before.len() as int].severity.spec_is_fatal());
                        }
                    },
                    Some((stage_name, slot)) => {
                        match find_node(&self.rune.nodes, stage_name.as_str()) {
                            None => {
                                proof {
                                    assert(!input_resolvable(nv, c as int, pos as int));
                                }
                                let mut message = String::from_str("no stage is named \"");
                                message.append(stage_name.as_str());
                                message.append("\"");
                                let ghost before = self.diags@;
                                self.diags.push(Diagnostic::error(message));
                                proof {
                                    assert(old(self).diags@.is_prefix_of(self.diags@)) by {
                                        assert(old(self).diags@ =~= self.diags@.subrange(
                                            0,
                                            old(self).diags@.len() as int,
                                        ));
                                    }
                                    assert(self.diags@[before.len() as int].severity.spec_is_fatal());
                                }
                            },
                            Some(producer) => {
                                let e = Edge { producer, slot, consumer: c, position: pos };
                                proof {
                                    assert(edge_sound(self.rune.nodes@, e));
                                    assert(input_resolvable(nv, c as int, pos as int));
                                }
                                let ghost prev_edges = edges@;
                                edges.push(e);
                                proof {
                                    assert(edge_recorded(edges@, c as int, pos as int)) by {
                                        assert(edges@[prev_edges.len() as int] == e);
                                    }
                                    assert forall|cc: int, pp: int|
                                        ((0 <= cc < c && 0 <= pp < nv[cc].inputs@.len()) || (cc
                                            == c && 0 <= pp < pos)) implies (input_resolvable(
                                        nv,
                                        cc,
                                        pp,
                                    ) <==> #[trigger] edge_recorded(edges@, cc, pp)) by {
                                        if edge_recorded(edges@, cc, pp) && !edge_recorded(
                                            prev_edges,
                                            cc,
                                            pp,
                                        ) {
                                            let k = choose|k: int|
                                                0 <= k < edges@.len() && (#[trigger] edges@[k]).consumer
                                                    == cc && edges@[k].position == pp;
                                            assert(k == prev_edges.len());
                                        }
                                        if edge_recorded(prev_edges, cc, pp) {
                                            let k = choose|k: int|
                                                0 <= k < prev_edges.len() && (
                                                #[trigger] prev_edges[k]).consumer == cc
                                                    && prev_edges[k].position == pp;
                                            assert(edges@[k] == prev_edges[k]);
                                        }
                                    }
                                }
                            },
                        }
                    },
                }
                pos += 1;
            }
            c += 1;
        }
        self.rune.edges = edges;
    }
}

impl Default for Context {
    fn default() -> (r: Context)
        ensures
            r.rune.nodes@.len() == 0,
            r.rune.edges@.len() == 0,
            r.diags@.len() == 0,
            r.names.entries@.len() == 0,
    {
        Context::new()
    }
}

/// Copy a list of strings.
pub(crate) fn clone_strings(v: &Vec<String>) -> (r: Vec<String>)
    ensures
        strings_view(r@) == strings_view(v@),
{
    let n = v.len();
    let mut out: Vec<String> = Vec::new();
    let mut i: usize = 0;
    while i < n
        invariant
            0 <= i <= n,
            n == v@.len(),
            out@.len() == i,
            forall|j: int| 0 <= j < i ==> out@[j]@ == v@[j]@,
        decreases n - i,
    {
        out.push(v[i].clone());
        i += 1;
    }
    proof {
        assert(strings_view(out@) =~= strings_view(v@));
    }
    out
}

/// Copy a list of tensor types.
pub(crate) fn clone_types(v: &Vec<Type>) -> (r: Vec<Type>)
    ensures
        types_view(r@) == types_view(v@),
{
    let n = v.len();
    let mut out: Vec<Type> = Vec::new();
    let mut i: usize = 0;
    while i < n
        invariant
            0 <= i <= n,
            n == v@.len(),
            out@.len() == i,
            forall|j: int| 0 <= j < i ==> out@[j]@ == v@[j]@,
        decreases n - i,
    {
        let t = &v[i];
        let mut dimensions: Vec<usize> = Vec::new();
        let dn = t.dimensions.len();
        let mut d: usize = 0;
        while d < dn
            invariant
                0 <= d <= dn,
                dn == t.dimensions@.len(),
                dimensions@ == t.dimensions@.take(d as int),
            decreases dn - d,
        {
            dimensions.push(t.dimensions[d]);
            proof {
                assert(dimensions@ =~= t.dimensions@.take(d as int + 1));
            }
            d += 1;
        }
        proof {
            assert(dimensions@ =~= t.dimensions@);
        }
        out.push(Type { ty: t.ty.clone(), dimensions });
        i += 1;
    }
    proof {
        assert(types_view(out@) =~= types_view(v@));
    }
    out
}

/// Materialize one node from a named stage; an error is reported exactly
/// when one of the stage's arguments does not lower.
fn build_node(name: String, stage: &Stage, diags: &mut Diagnostics) -> (r: Node)
    ensures
        node_represents(r, name@, (*stage)@),
        old(diags)@.is_prefix_of(final(diags)@),
        spec_has_errors(final(diags)@) == (spec_has_errors(old(diags)@) || stage_args_reject(
            (*stage)@,
        )),
        !stage_args_reject((*stage)@) ==> final(diags)@ == old(diags)@,
{
    match stage {
        Stage::Model { model, inputs, outputs } => Node {
            name,
            kind: StageKind::Model { model_file: model.clone() },
            inputs: clone_strings(inputs),
            outputs: clone_types(outputs),
        },
        Stage::ProcBlock { proc_block, inputs, outputs, args } => Node {
            name,
            kind: StageKind::ProcBlock {
                path: proc_block.clone(),
                parameters: to_parameters(args, diags),
            },
            inputs: clone_strings(inputs),
            outputs: clone_types(outputs),
        },
        Stage::Capability { capability, outputs, args } => Node {
            name,
            kind: StageKind::Source {
                kind: capability.clone(),
                parameters: to_parameters(args, diags),
            },
            inputs: Vec::new(),
            outputs: clone_types(outputs),
        },
        Stage::Out { out, inputs, args } => Node {
            name,
            kind: StageKind::Sink { kind: out.clone() },
            inputs: clone_strings(inputs),
            outputs: Vec::new(),
        },
    }
}

/// The node whose name is `name`, if any.
fn find_node(nodes: &Vec<Node>, name: &str) -> (r: Option<usize>)
    ensures
        match r {
            Some(k) => k < nodes@.len() && nodes@[k as int].name@ == name@,
            None => forall|k: int| 0 <= k < nodes@.len() ==> (#[trigger] nodes@[k]).name@ != name@,
        },
{
    let n = nodes.len();
    let mut i: usize = 0;
    while i < n
        invariant
            0 <= i <= n,
            n == nodes@.len(),
            forall|k: int| 0 <= k < i ==> (#[trigger] nodes@[k]).name@ != name@,
        decreases n - i,
    {
        if str_eq(nodes[i].name.as_str(), name) {
            return Some(i);
        }
        i += 1;
    }
    None
}

// ---------------------------------------------------------------------------
// Input references
// ---------------------------------------------------------------------------

pub open spec fn is_digit(c: char) -> bool {
    '0' <= c && c <= '9'
}

pub open spec fn digit_val(c: char) -> int {
    (c as u32) as int - ('0' as u32) as int
}

pub open spec fn all_digits(s: Seq<char>) -> bool {
    forall|i: int| 0 <= i < s.len() ==> is_digit(#[trigger] s[i])
}

/// The number a run of decimal digits denotes.
pub open spec fn digits_value(s: Seq<char>) -> int
    decreases s.len(),
{
    if s.len() == 0 {
        0
    } else {
        digits_value(s.drop_last()) * 10 + digit_val(s.last())
    }
}

proof fn lemma_digits_nonneg(s: Seq<char>)
    requires
        all_digits(s),
    ensures
        digits_value(s) >= 0,
    decreases s.len(),
{
    if s.len() > 0 {
        assert(all_digits(s.drop_last())) by {
            assert(forall|i: int| 0 <= i < s.len() - 1 ==> s.drop_last()[i] == s[i]);
        }
        lemma_digits_nonneg(s.drop_last());
    }
}

proof fn lemma_digits_monotone(s: Seq<char>, i: int)
    requires
        all_digits(s),
        0 <= i <= s.len(),
    ensures
        digits_value(s) >= digits_value(s.take(i)),
    decreases s.len() - i,
{
    if i < s.len() {
        assert(s.take(i + 1).drop_last() =~= s.take(i));
        assert(all_digits(s.take(i))) by {
            assert(forall|j: int| 0 <= j < i ==> s.take(i)[j] == s[j]);
        }
        lemma_digits_nonneg(s.take(i));
        assert(is_digit(s.take(i + 1).last()));
        assert(digits_value(s.take(i + 1)) >= digits_value(s.take(i)));
        lemma_digits_monotone(s, i + 1);
    } else {
        assert(s.take(i) =~= s);
    }
}

/// An input reference: `stage_name`, optionally followed by `.slot` where
/// `slot` is a decimal output slot index (default 0).
pub open spec fn spec_input_ref(s: Seq<char>) -> Option<(Seq<char>, usize)> {
    match find_char(s, '.') {
        None => Some((s, 0usize)),
        Some(d) => {
            let name = s.subrange(0, d);
            let digits = s.subrange(d + 1, s.len() as int);
            if digits.len() > 0 && all_digits(digits) && digits_value(digits) <= u32::MAX as int {
                Some((name, digits_value(digits) as usize))
            } else {
                None
            }
        },
    }
}

/// Split an input reference into the producer's name and output slot.
pub fn parse_input_ref(s: &str) -> (r: Option<(String, usize)>)
    ensures
        match r {
            Some((name, slot)) => spec_input_ref(s@) == Some((name@, slot)),
            None => spec_input_ref(s@) is None,
        },
{
    let n = s.unicode_len();
    let dot = crate::path::find_in_str(s, '.');
    let d = match dot {
        None => {
            return Some((String::from_str(s), 0));
        },
        Some(d) => d,
    };
    proof {
        lemma_find_char(s@, '.');
    }
    let ghost digits = s@.subrange(d as int + 1, s@.len() as int);
    if d + 1 == n {
        proof {
            assert(digits.len() == 0);
        }
        return None;
    }
    let mut acc: u64 = 0;
    let mut i: usize = d + 1;
    while i < n
        invariant
            d < i <= n,
            n == s@.len(),
            find_char(s@, '.') == Some(d as int),
            digits == s@.subrange(d as int + 1, s@.len() as int),
            forall|j: int| d < j < i ==> is_digit(#[trigger] s@[j]),
            acc == digits_value(s@.subrange(d as int + 1, i as int)),
            acc <= u32::MAX as u64,
        decreases n - i,
    {
        let c = s.get_char(i);
        if !('0' <= c && c <= '9') {
            proof {
                assert(digits[i - d - 1] == s@[i as int]);
                assert(!all_digits(digits));
            }
            return None;
        }
        let digit = (c as u32) - ('0' as u32);
        let next = acc * 10 + (digit as u64);
        proof {
            let lo = s@.subrange(d as int + 1, i as int + 1);
            assert(lo.drop_last() =~= s@.subrange(d as int + 1, i as int));
            assert(lo.last() == s@[i as int]);
        }
        if next > u32::MAX as u64 {
            proof {
                let pre = s@.subrange(d as int + 1, i as int + 1);
                assert(digits.take(i - d) =~= pre);
                if all_digits(digits) {
                    lemma_digits_monotone(digits, i - d);
                    assert(digits_value(digits) > u32::MAX as int);
                }
            }
            return None;
        }
        acc = next;
        i += 1;
    }
    proof {
        assert(s@.subrange(d as int + 1, n as int) =~= digits);
        assert(all_digits(digits));
        lemma_digits_nonneg(digits);
    }
    let name = String::from_str(s.substring_char(0, d));
    Some((name, acc as usize))
}

// ---------------------------------------------------------------------------
// The lowering entry point
// ---------------------------------------------------------------------------

/// Lower a document and type-check the result: name registration, stage
/// materialization, edge construction, then the pipeline checks. Every
/// problem becomes a diagnostic; on a result without errors the graph is
/// acyclic and every edge is well typed.
/// Why lowering a pipeline is rejected: an empty stage name, an argument
/// that does not lower, or an input reference that fails to parse or to
/// name a stage.
pub open spec fn lowering_rejects(p: Seq<(Seq<char>, StageModel)>, nodes: Seq<Node>) -> bool {
    ||| exists|i: int| 0 <= i < p.len() && (#[trigger] p[i]).0.len() == 0
    ||| exists|i: int| 0 <= i < p.len() && stage_args_reject((#[trigger] p[i]).1)
    ||| inputs_reject(nodes)
}

pub fn analyse(doc: &Document) -> (r: (Rune, Diagnostics))
    requires
        document_well_formed(doc@),
    ensures
        nodes_represent(r.0.nodes@, doc@.pipeline),
        edges_sound(r.0.nodes@, r.0.edges@),
        edges_complete(r.0.nodes@, r.0.edges@),
        spec_has_errors(r.1@) == (lowering_rejects(doc@.pipeline, r.0.nodes@)
            || crate::type_check::graph_rejects(r.0)),
        !spec_has_errors(r.1@) ==> crate::type_check::acyclic(
            r.0.nodes@.len() as int,
            r.0.edges@,
        ),
        !spec_has_errors(r.1@) ==> crate::type_check::edges_well_typed(r.0.nodes@, r.0.edges@),
        !spec_has_errors(r.1@) ==> crate::type_check::sinks_have_inputs(r.0.nodes@),
        !crate::type_check::acyclic(r.0.nodes@.len() as int, r.0.edges@) ==> exists|i: int|
            0 <= i < r.1@.len() && crate::type_check::cycle_reported(
                #[trigger] r.1@[i],
                r.0.nodes@,
                r.0.edges@,
            ),
{
    let mut ctx = Context::new();
    proof {
        assert(!spec_has_errors(ctx.diags@));
    }
    ctx.register_names(&doc.pipeline);
    ctx.register_stages(&doc.pipeline);
    ctx.construct_pipeline();
    let rune = ctx.rune;
    let mut diags = ctx.diags;
    crate::type_check::check(&rune, &mut diags);
    (rune, diags)
}

} // verus!
