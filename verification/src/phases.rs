//! The phase driver.
//!
//! A build runs parse, lowering, type checking and codegen in order, firing
//! a user hook after every phase. Hooks observe the world and the
//! diagnostics gathered so far; returning [`Continuation::Halt`] stops the
//! pipeline, and the partially populated world is still returned so callers
//! can inspect the diagnostics. A halt before codegen means no file is
//! emitted.

use vstd::prelude::*;
use vstd::string::StringExecFns;

use crate::build_context::BuildContext;
use crate::build_context::BuildContextModel;
use crate::build_context::FeatureFlags;
use crate::build_context::FeatureFlagsModel;
use crate::codegen::File;
use crate::diagnostics::Diagnostic;
use crate::diagnostics::Diagnostics;
use crate::diagnostics::Severity;
use crate::diagnostics::Span;
use crate::diagnostics::spec_has_errors;
use crate::document::Document;
use crate::document::ParseErrorModel;
use crate::document::document_well_formed;
use crate::document::spec_parse_document;
use crate::lowering::Context;
use crate::lowering::Node;
use crate::lowering::Rune;
use crate::lowering::StageKind;
use crate::lowering::edges_complete;
use crate::lowering::edges_sound;
use crate::lowering::lowering_rejects;
use crate::lowering::node_represents;
use crate::lowering::nodes_represent;
use crate::queries::Database;
use crate::queries::clone_files;
use crate::queries::files_view;
use crate::queries::pbs_of_nodes;
use crate::queries::spec_files;
use crate::type_check::acyclic;
use crate::type_check::edges_well_typed;
use crate::type_check::graph_rejects;
use crate::type_check::lemma_no_edges_acyclic;
use crate::type_check::sinks_have_inputs;

verus! {

/// What a hook tells the driver: go on, or stop here.
#[derive(Debug, Clone, Copy, PartialEq, Eq, Structural)]
pub enum Continuation {
    Continue,
    Halt,
}

/// The observation points, one after (or before) each phase.
#[derive(Debug, Clone, Copy, PartialEq, Eq, Structural)]
pub enum HookPoint {
    BeforeParse,
    AfterParse,
    AfterLowering,
    AfterTypeChecking,
    AfterCodegen,
    AfterCompile,
}

/// The world a build populates: the parsed document, the lowered entities,
/// and the emitted files, each present once its phase has run. `halted`
/// records the hook that stopped the pipeline, if one did; `hook_log`
/// records, in order, every hook invocation and its answer.
pub struct World {
    pub document: Option<Document>,
    pub rune: Option<Rune>,
    pub files: Option<Vec<File>>,
    pub halted: Option<HookPoint>,
    pub hook_log: Ghost<Seq<(HookPoint, Continuation)>>,
}

/// User hooks fired at phase boundaries. A hook observes the world and the
/// diagnostics gathered so far; its verdict decides whether the next phase
/// runs.
pub trait Hooks {
    fn before_parse(&mut self, world: &World, diags: &Diagnostics) -> Continuation;

    fn after_parse(&mut self, world: &World, diags: &Diagnostics) -> Continuation;

    fn after_lowering(&mut self, world: &World, diags: &Diagnostics) -> Continuation;

    fn after_type_checking(&mut self, world: &World, diags: &Diagnostics) -> Continuation;

    fn after_codegen(&mut self, world: &World, diags: &Diagnostics) -> Continuation;

    fn after_compile(&mut self, world: &World, diags: &Diagnostics) -> Continuation;
}

/// Hooks that always continue.
pub struct NopHooks;

impl Hooks for NopHooks {
    fn before_parse(&mut self, world: &World, diags: &Diagnostics) -> Continuation {
        Continuation::Continue
    }

    fn after_parse(&mut self, world: &World, diags: &Diagnostics) -> Continuation {
        Continuation::Continue
    }

    fn after_lowering(&mut self, world: &World, diags: &Diagnostics) -> Continuation {
        Continuation::Continue
    }

    fn after_type_checking(&mut self, world: &World, diags: &Diagnostics) -> Continuation {
        Continuation::Continue
    }

    fn after_codegen(&mut self, world: &World, diags: &Diagnostics) -> Continuation {
        Continuation::Continue
    }

    fn after_compile(&mut self, world: &World, diags: &Diagnostics) -> Continuation {
        Continuation::Continue
    }
}

/// Parsing happened (nothing stopped the pipeline before it).
pub open spec fn past_parse(h: Option<HookPoint>) -> bool {
    h != Some(HookPoint::BeforeParse)
}

/// Lowering happened.
pub open spec fn past_lowering(h: Option<HookPoint>) -> bool {
    past_parse(h) && h != Some(HookPoint::AfterParse)
}

/// Type checking happened.
pub open spec fn past_type_checking(h: Option<HookPoint>) -> bool {
    past_lowering(h) && h != Some(HookPoint::AfterLowering)
}

/// Codegen happened: the file tree exists.
pub open spec fn reached_codegen(h: Option<HookPoint>) -> bool {
    past_type_checking(h) && h != Some(HookPoint::AfterTypeChecking)
}

/// The lowered world matches the parsed document: one node per stage in
/// sorted name order, every edge recording a declared input; with no
/// document, nothing.
pub open spec fn rune_matches_document(rune: Rune, document: Option<Document>) -> bool {
    match document {
        Some(doc) => nodes_represent(rune.nodes@, doc@.pipeline) && edges_sound(
            rune.nodes@,
            rune.edges@,
        ) && edges_complete(rune.nodes@, rune.edges@),
        None => rune.nodes@.len() == 0 && rune.edges@.len() == 0,
    }
}

/// The observation point a run reaches `i`th.
pub open spec fn hook_point_at(i: int) -> HookPoint {
    if i == 0 {
        HookPoint::BeforeParse
    } else if i == 1 {
        HookPoint::AfterParse
    } else if i == 2 {
        HookPoint::AfterLowering
    } else if i == 3 {
        HookPoint::AfterTypeChecking
    } else if i == 4 {
        HookPoint::AfterCodegen
    } else {
        HookPoint::AfterCompile
    }
}

/// The hook answers a run received, in order: every hook before the halting
/// one answered `Continue`, the halting one `Halt` and it set the marker,
/// and no hook after the halting one was invoked; a run that was never
/// halted heard all six hooks answer `Continue`.
pub open spec fn hook_log_describes(
    log: Seq<(HookPoint, Continuation)>,
    halted: Option<HookPoint>,
) -> bool {
    &&& forall|i: int| 0 <= i < log.len() ==> (#[trigger] log[i]).0 == hook_point_at(i)
    &&& match halted {
        None => log.len() == 6 && forall|i: int|
            0 <= i < log.len() ==> (#[trigger] log[i]).1 == Continuation::Continue,
        Some(p) => {
            &&& 1 <= log.len() <= 6
            &&& log.last().1 == Continuation::Halt
            &&& log.last().0 == p
            &&& forall|i: int|
                0 <= i < log.len() - 1 ==> (#[trigger] log[i]).1 == Continuation::Continue
        },
    }
}

/// How a parse error must appear in the bag: an error carrying the parse
/// error's message, and for a syntax error the byte offset it points at.
pub open spec fn parse_error_reported(d: Diagnostic, e: ParseErrorModel) -> bool {
    &&& d.severity == Severity::Error
    &&& match e {
        ParseErrorModel::Syntax { message, offset } => d.message@ == message && d.primary
            == Some(Span { start: offset, end: offset }),
        ParseErrorModel::Structure { message } => d.message@ == message && d.primary is None,
    }
}

/// Whether lowering rejected something, for an optional document.
pub open spec fn lowered_rejects_opt(document: Option<Document>, rune: Rune) -> bool {
    match document {
        Some(doc) => lowering_rejects(doc@.pipeline, rune.nodes@),
        None => false,
    }
}

/// Why a build that got through type checking carries an error: the
/// Runefile was rejected, or lowering rejected the pipeline, or the graph
/// was rejected.
pub open spec fn build_rejects(w: World, ctx: BuildContextModel) -> bool {
    match spec_parse_document(ctx.runefile) {
        Err(_) => true,
        Ok(_) => match (w.document, w.rune) {
            (Some(doc), Some(rune)) => lowering_rejects(doc@.pipeline, rune.nodes@)
                || graph_rejects(rune),
            _ => false,
        },
    }
}

/// Everything a finished (or halted) build guarantees:
///
/// - a halt at a hook leaves every later phase's artifact absent — in
///   particular, a halt before codegen emits no file;
/// - the document is exactly what parsing the Runefile text yields, and a
///   rejected Runefile is an error in the bag;
/// - the lowered world matches the document;
/// - a diagnostics bag without errors means the graph is acyclic, every
///   edge is well typed, and every sink is fed;
/// - the emitted tree is a function of the build context, the feature
///   flags, and the declared processing blocks alone.
pub open spec fn build_post(
    w: World,
    diags: Seq<Diagnostic>,
    ctx: BuildContextModel,
    flags: FeatureFlagsModel,
) -> bool {
    &&& (w.halted == Some(HookPoint::BeforeParse) ==> w.document is None)
    &&& (past_parse(w.halted) ==> match spec_parse_document(ctx.runefile) {
        Ok(d) => w.document matches Some(doc) && doc@ == d && document_well_formed(doc@),
        Err(e) => w.document is None && spec_has_errors(diags) && exists|i: int|
            0 <= i < diags.len() && parse_error_reported(#[trigger] diags[i], e),
    })
    &&& (past_type_checking(w.halted) ==> (spec_has_errors(diags) <==> build_rejects(w, ctx)))
    &&& (!past_lowering(w.halted) ==> w.rune is None)
    &&& (past_lowering(w.halted) ==> (w.rune matches Some(rune) && rune_matches_document(
        rune,
        w.document,
    )))
    &&& (!reached_codegen(w.halted) ==> w.files is None)
    &&& (past_type_checking(w.halted) && !spec_has_errors(diags) ==> (w.rune matches Some(rune)
        && acyclic(rune.nodes@.len() as int, rune.edges@) && edges_well_typed(
        rune.nodes@,
        rune.edges@,
    ) && sinks_have_inputs(rune.nodes@)))
    &&& (reached_codegen(w.halted) ==> (w.rune matches Some(rune) && w.files matches Some(fs)
        && files_view(fs@) == spec_files(ctx, flags, pbs_of_nodes(rune.nodes@))))
}

/// Parse the Runefile text into the world; a rejected Runefile is exactly
/// one error diagnostic, carrying the parse error's message and offset.
fn phase_parse(ctx: &BuildContext, world: &mut World, diags: &mut Diagnostics)
    requires
        old(world).document is None,
    ensures
        final(world).rune == old(world).rune,
        final(world).files == old(world).files,
        final(world).halted == old(world).halted,
        final(world).hook_log == old(world).hook_log,
        old(diags)@.is_prefix_of(final(diags)@),
        match spec_parse_document(ctx@.runefile) {
            Ok(d) => final(world).document matches Some(doc) && doc@ == d
                && document_well_formed(doc@) && final(diags)@ == old(diags)@,
            Err(e) => final(world).document is None && final(diags)@.len() == old(diags)@.len()
                + 1 && parse_error_reported(final(diags)@.last(), e),
        },
        spec_has_errors(final(diags)@) == (spec_has_errors(old(diags)@) || spec_parse_document(
            ctx@.runefile,
        ) is Err),
{
    match Document::parse(ctx.runefile.as_str()) {
        Ok(d) => {
            world.document = Some(d);
            proof {
                assert(old(diags)@.is_prefix_of(diags@)) by {
                    assert(old(diags)@ =~= diags@.subrange(0, old(diags)@.len() as int));
                }
            }
        },
        Err(e) => {
            let ghost before = diags@;
            diags.push(e.to_diagnostic());
            proof {
                assert(diags@[before.len() as int].severity.spec_is_fatal());
                assert(before.is_prefix_of(diags@)) by {
                    assert(before =~= diags@.subrange(0, before.len() as int));
                }
            }
        },
    }
}

/// Lower the parsed document into the world: the stage entities in sorted
/// name order and one edge per declared input; an error is in the bag
/// exactly when lowering rejected something (or one was there already).
fn phase_lowering(world: &mut World, diags: &mut Diagnostics)
    requires
        old(world).rune is None,
        match old(world).document {
            Some(doc) => document_well_formed(doc@),
            None => true,
        },
    ensures
        final(world).document == old(world).document,
        final(world).files == old(world).files,
        final(world).halted == old(world).halted,
        final(world).hook_log == old(world).hook_log,
        old(diags)@.is_prefix_of(final(diags)@),
        final(world).rune matches Some(rune) && rune_matches_document(
            rune,
            final(world).document,
        ) && spec_has_errors(final(diags)@) == (spec_has_errors(old(diags)@)
            || lowered_rejects_opt(final(world).document, rune)),
{
    let rune = match &world.document {
        Some(doc) => {
            let mut lowering = Context::new();
            proof {
                assert(!spec_has_errors(lowering.diags@));
            }
            lowering.register_names(&doc.pipeline);
            lowering.register_stages(&doc.pipeline);
            lowering.construct_pipeline();
            let rune = lowering.rune;
            let lowering_diags = lowering.diags;
            let ghost before = diags@;
            let ghost lowered = lowering_diags@;
            proof {
                crate::diagnostics::lemma_concat_errors(before, lowered);
            }
            diags.append(lowering_diags);
            proof {
                assert(before.is_prefix_of(diags@)) by {
                    assert(before =~= diags@.subrange(0, before.len() as int));
                }
            }
            rune
        },
        None => {
            proof {
                assert(old(diags)@.is_prefix_of(diags@)) by {
                    assert(old(diags)@ =~= diags@.subrange(0, old(diags)@.len() as int));
                }
            }
            Rune { nodes: Vec::new(), edges: Vec::new() }
        },
    };
    world.rune = Some(rune);
}

/// Run the pipeline checks over the lowered world: afterwards the bag holds
/// an error exactly when it already did or the graph is rejected.
fn phase_type_check(world: &World, diags: &mut Diagnostics)
    requires
        world.rune matches Some(rune) && edges_sound(rune.nodes@, rune.edges@),
    ensures
        old(diags)@.is_prefix_of(final(diags)@),
        world.rune matches Some(rune) && spec_has_errors(final(diags)@) == (spec_has_errors(
            old(diags)@,
        ) || graph_rejects(rune)) && (!spec_has_errors(final(diags)@) ==> acyclic(
            rune.nodes@.len() as int,
            rune.edges@,
        ) && edges_well_typed(rune.nodes@, rune.edges@) && sinks_have_inputs(rune.nodes@)),
{
    match &world.rune {
        Some(rune) => {
            crate::type_check::check(rune, diags);
        },
        None => {
            proof {
                assert(false);
            }
        },
    }
}

/// Emit the file tree through the query database.
fn phase_codegen(db: &mut Database, world: &mut World)
    requires
        old(db).wf(),
        old(db).build_context is Some,
        old(db).feature_flags is Some,
        old(world).rune is Some,
    ensures
        final(world).document == old(world).document,
        final(world).rune == old(world).rune,
        final(world).halted == old(world).halted,
        final(world).hook_log == old(world).hook_log,
        final(world).files matches Some(fs) && files_view(fs@) == spec_files(
            old(db).build_context->0@,
            old(db).feature_flags->0@,
            pbs_of_nodes(old(world).rune->0.nodes@),
        ),
{
    match &world.rune {
        Some(rune) => {
            update_db_before_codegen(rune, db);
        },
        None => {
            proof {
                assert(false);
            }
        },
    }
    let files = clone_files(db.files());
    world.files = Some(files);
}

/// Execute the build process, firing the given hooks after each phase.
pub fn build_with_hooks<H: Hooks>(ctx: BuildContext, features: FeatureFlags, hooks: &mut H) -> (r:
    (World, Diagnostics))
    ensures
        build_post(r.0, r.1@, ctx@, features@),
        hook_log_describes(r.0.hook_log@, r.0.halted),
{
    let mut diags = Diagnostics::new();
    let mut world = World {
        document: None,
        rune: None,
        files: None,
        halted: None,
        hook_log: Ghost(Seq::empty()),
    };
    let mut db = Database::new();
    db.set_build_context(ctx.clone());
    db.set_feature_flags(features.clone());
    proof {
        assert(!spec_has_errors(diags@));
    }

    let verdict = hooks.before_parse(&world, &diags);
    proof {
        world.hook_log@ = world.hook_log@.push((HookPoint::BeforeParse, verdict));
    }
    if verdict != Continuation::Continue {
        world.halted = Some(HookPoint::BeforeParse);
        return (world, diags);
    }

    phase_parse(&ctx, &mut world, &mut diags);

    let verdict = hooks.after_parse(&world, &diags);
    proof {
        world.hook_log@ = world.hook_log@.push((HookPoint::AfterParse, verdict));
    }
    if verdict != Continuation::Continue {
        world.halted = Some(HookPoint::AfterParse);
        return (world, diags);
    }

    phase_lowering(&mut world, &mut diags);

    let verdict = hooks.after_lowering(&world, &diags);
    proof {
        world.hook_log@ = world.hook_log@.push((HookPoint::AfterLowering, verdict));
    }
    if verdict != Continuation::Continue {
        world.halted = Some(HookPoint::AfterLowering);
        return (world, diags);
    }

    phase_type_check(&world, &mut diags);
    proof {
        lemma_build_errors(world, diags@, ctx@);
    }

    let verdict = hooks.after_type_checking(&world, &diags);
    proof {
        world.hook_log@ = world.hook_log@.push((HookPoint::AfterTypeChecking, verdict));
    }
    if verdict != Continuation::Continue {
        world.halted = Some(HookPoint::AfterTypeChecking);
        return (world, diags);
    }

    phase_codegen(&mut db, &mut world);

    let verdict = hooks.after_codegen(&world, &diags);
    proof {
        world.hook_log@ = world.hook_log@.push((HookPoint::AfterCodegen, verdict));
    }
    if verdict != Continuation::Continue {
        world.halted = Some(HookPoint::AfterCodegen);
        return (world, diags);
    }

    // Turning the emitted tree into a `.wasm` artifact belongs to the
    // caller's toolchain; the driver's last observation point still fires.
    let verdict = hooks.after_compile(&world, &diags);
    proof {
        world.hook_log@ = world.hook_log@.push((HookPoint::AfterCompile, verdict));
    }
    if verdict != Continuation::Continue {
        world.halted = Some(HookPoint::AfterCompile);
        return (world, diags);
    }

    (world, diags)
}

/// The error bag after type checking is exactly the build's rejections.
proof fn lemma_build_errors(w: World, diags: Seq<Diagnostic>, ctx: BuildContextModel)
    requires
        w.rune is Some,
        match spec_parse_document(ctx.runefile) {
            Ok(d) => w.document matches Some(doc) && doc@ == d,
            Err(_) => w.document is None,
        },
        rune_matches_document(w.rune->0, w.document),
        spec_has_errors(diags) == ((spec_parse_document(ctx.runefile) is Err
            || lowered_rejects_opt(w.document, w.rune->0)) || graph_rejects(w.rune->0)),
    ensures
        spec_has_errors(diags) == build_rejects(w, ctx),
{
    match spec_parse_document(ctx.runefile) {
        Ok(_) => {},
        Err(_) => {
            let rune = w.rune->0;
            assert(rune.nodes@.len() == 0 && rune.edges@.len() == 0);
            lemma_no_edges_acyclic(rune.nodes@.len() as int, rune.edges@);
            assert(!graph_rejects(rune));
        },
    }
}

/// Execute the build process with no hooks and production feature flags:
/// every phase runs, so the world holds the document, the lowered entities
/// and the emitted files exactly as `build_post` pins them.
pub fn build(ctx: BuildContext) -> (r: (World, Diagnostics))
    ensures
        build_post(r.0, r.1@, ctx@, FeatureFlagsModel { rune_repo_dir: None }),
        r.0.halted is None,
        r.0.hook_log@.len() == 0,
{
    let features = FeatureFlags::production();
    let ghost fm = features@;
    let mut diags = Diagnostics::new();
    let mut world = World {
        document: None,
        rune: None,
        files: None,
        halted: None,
        hook_log: Ghost(Seq::empty()),
    };
    let mut db = Database::new();
    db.set_build_context(ctx.clone());
    db.set_feature_flags(features.clone());
    proof {
        assert(!spec_has_errors(diags@));
        assert(fm == FeatureFlagsModel { rune_repo_dir: None::<Seq<char>> });
    }
    phase_parse(&ctx, &mut world, &mut diags);
    phase_lowering(&mut world, &mut diags);
    phase_type_check(&world, &mut diags);
    proof {
        lemma_build_errors(world, diags@, ctx@);
    }
    phase_codegen(&mut db, &mut world);
    (world, diags)
}

/// Carry the lowered world into the query database: the processing blocks
/// and models with their components, in node (sorted name) order.
pub fn update_db_before_codegen(rune: &Rune, db: &mut Database)
    requires
        old(db).wf(),
    ensures
        final(db).wf(),
        final(db).build_context == old(db).build_context,
        final(db).feature_flags == old(db).feature_flags,
        final(db).spec_pb_paths() == pbs_of_nodes(rune.nodes@),
{
    db.proc_block_names = Vec::new();
    db.model_names = Vec::new();
    db.node_inputs = Vec::new();
    db.node_outputs = Vec::new();
    db.proc_block_info = Vec::new();
    db.model_info = Vec::new();
    db.files_cache = None;
    let n = rune.nodes.len();
    let mut i: usize = 0;
    while i < n
        invariant
            0 <= i <= n,
            n == rune.nodes@.len(),
            db.build_context == old(db).build_context,
            db.feature_flags == old(db).feature_flags,
            db.files_cache is None,
            db.spec_pb_paths() == pbs_of_nodes(rune.nodes@.take(i as int)),
        decreases n - i,
    {
        proof {
            assert(rune.nodes@.take(i as int + 1).drop_last() =~= rune.nodes@.take(i as int));
            assert(rune.nodes@.take(i as int + 1).last() == rune.nodes@[i as int]);
        }
        let node = &rune.nodes[i];
        let ghost prev = db.proc_block_info@;
        match &node.kind {
            StageKind::ProcBlock { path, .. } => {
                db.proc_block_names.push(node.name.clone());
                db.proc_block_info.push((node.name.clone(), path.clone()));
                db.node_inputs.push((node.name.clone(), crate::lowering::clone_strings(
                    &node.inputs,
                )));
                db.node_outputs.push((node.name.clone(), crate::lowering::clone_types(
                    &node.outputs,
                )));
                proof {
                    assert(db.spec_pb_paths() =~= pbs_of_nodes(rune.nodes@.take(i as int)).push(
                        (*path)@,
                    ));
                }
            },
            StageKind::Model { model_file } => {
                db.model_names.push(node.name.clone());
                db.model_info.push((node.name.clone(), model_file.clone()));
                db.node_inputs.push((node.name.clone(), crate::lowering::clone_strings(
                    &node.inputs,
                )));
                db.node_outputs.push((node.name.clone(), crate::lowering::clone_types(
                    &node.outputs,
                )));
            },
            _ => {},
        }
        i += 1;
    }
    proof {
        assert(rune.nodes@.take(n as int) =~= rune.nodes@);
    }
}

/// Two `build` calls with equal build context and feature flags emit
/// byte-identical file trees. A plain `build` always reaches codegen (its
/// halt marker is `None`), so this applies directly to any two plain
/// builds; with hooks it applies to any two runs no hook stopped early.
pub proof fn lemma_build_deterministic(
    w1: World,
    d1: Seq<Diagnostic>,
    w2: World,
    d2: Seq<Diagnostic>,
    ctx: BuildContextModel,
    flags: FeatureFlagsModel,
)
    requires
        build_post(w1, d1, ctx, flags),
        build_post(w2, d2, ctx, flags),
        reached_codegen(w1.halted),
        reached_codegen(w2.halted),
    ensures
        match (w1.files, w2.files) {
            (Some(f1), Some(f2)) => files_view(f1@) == files_view(f2@),
            _ => false,
        },
{
    let rune1 = w1.rune->0;
    let rune2 = w2.rune->0;
    match spec_parse_document(ctx.runefile) {
        Ok(d) => {
            let doc1 = w1.document->0;
            let doc2 = w2.document->0;
            assert(doc1@ == doc2@);
            lemma_pbs_agree(rune1.nodes@, rune2.nodes@, doc1@.pipeline);
        },
        Err(_) => {
            assert(rune1.nodes@ =~= Seq::<Node>::empty());
            assert(rune2.nodes@ =~= Seq::<Node>::empty());
        },
    }
}

/// Two node tables that both materialize the same pipeline declare the same
/// processing blocks.
proof fn lemma_pbs_agree(
    n1: Seq<Node>,
    n2: Seq<Node>,
    p: Seq<(Seq<char>, crate::document::StageModel)>,
)
    requires
        nodes_represent(n1, p),
        nodes_represent(n2, p),
    ensures
        pbs_of_nodes(n1) == pbs_of_nodes(n2),
{
    lemma_pbs_agree_prefix(n1, n2, p, n1.len() as int);
    assert(n1.take(n1.len() as int) =~= n1);
    assert(n2.take(n2.len() as int) =~= n2);
}

proof fn lemma_pbs_agree_prefix(
    n1: Seq<Node>,
    n2: Seq<Node>,
    p: Seq<(Seq<char>, crate::document::StageModel)>,
    k: int,
)
    requires
        nodes_represent(n1, p),
        nodes_represent(n2, p),
        0 <= k <= n1.len(),
    ensures
        n1.len() == n2.len(),
        pbs_of_nodes(n1.take(k)) =~= pbs_of_nodes(n2.take(k)),
    decreases k,
{
    if k > 0 {
        lemma_pbs_agree_prefix(n1, n2, p, k - 1);
        assert(n1.take(k).drop_last() =~= n1.take(k - 1));
        assert(n2.take(k).drop_last() =~= n2.take(k - 1));
        assert(n1.take(k).last() == n1[k - 1]);
        assert(n2.take(k).last() == n2[k - 1]);
        let table = crate::lowering::spec_name_table(p);
        assert(node_represents(n1[k - 1], table[k - 1].0, p[table[k - 1].1 as int].1));
        assert(node_represents(n2[k - 1], table[k - 1].0, p[table[k - 1].1 as int].1));
        match p[table[k - 1].1 as int].1 {
            crate::document::StageModel::ProcBlock { proc_block, .. } => {
                assert(n1[k - 1].kind matches StageKind::ProcBlock { path, .. } && path@
                    == proc_block);
                assert(n2[k - 1].kind matches StageKind::ProcBlock { path, .. } && path@
                    == proc_block);
            },
            _ => {},
        }
    }
}

} // verus!
