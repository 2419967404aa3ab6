//! Rendering an image: an ordered list of layers, lower layers first, is
//! turned into one plan for each layer.
//!
//! Layers are planned in their order, and the planning stops at the first
//! layer that cannot be read. What was planned until then is handed out with
//! the error, so that it can still be carried out: the plans of the layers
//! before, and of the failing layer the entries that came before its archive
//! broke.
//!
//! Nothing here touches a file system. The caller says what it found of the
//! target directory, and carries out the plans it gets back.

use vstd::prelude::*;
use vstd::string::StringExecFns;
use crate::codec::{
    archive_entries, archive_whole, compression_for, compression_of, decoded, decompress,
    entry_pairs, list_entries,
};
use crate::plan::{
    confined, extracts_all, follows, is_candidate, is_cut_plan, is_plan, plan_entries, LayerPlan,
    PlanView,
};

verus! {

/// The bytes of one layer, with the media type under which they were fetched.
#[derive(Debug)]
pub struct LayerBlob {
    pub bytes: Vec<u8>,
    pub media_type: Option<String>,
}

/// A `LayerBlob` as a mathematical value.
pub struct LayerBlobView {
    pub bytes: Seq<u8>,
    pub media_type: Option<Seq<char>>,
}

impl View for LayerBlob {
    type V = LayerBlobView;

    open spec fn view(&self) -> LayerBlobView {
        LayerBlobView {
            bytes: self.bytes@,
            media_type: match self.media_type {
                Some(t) => Some(t@),
                None => None,
            },
        }
    }
}

/// The directory that the layers are to be unpacked into, as its caller found
/// it.
#[derive(Debug, Clone)]
pub struct TargetDir {
    /// The path of the directory, for messages.
    pub path: String,
    /// Whether the path is absolute.
    pub is_absolute: bool,
    /// Whether anything exists at the path.
    pub exists: bool,
    /// Whether what exists at the path is a directory.
    pub is_dir: bool,
}

impl TargetDir {
    /// Whether layers can be unpacked into the directory: its path is
    /// absolute and names an existing directory.
    pub open spec fn usable(&self) -> bool {
        self.is_absolute && self.exists && self.is_dir
    }
}

/// Why no plan was made.
#[derive(Debug)]
pub enum RenderError {
    /// The target is not an absolute path to an existing directory.
    WrongTargetPath(String),
    /// A layer could not be decompressed, or its archive could not be read.
    Io(std::io::Error),
}

impl RenderError {
    /// The text of the error.
    pub fn message(&self) -> (text: String)
        ensures
            text@ == match self {
                RenderError::WrongTargetPath(path) => "wrong target path "@ + path@
                    + ": must be absolute path to existing directory"@,
                RenderError::Io(_) => "io error"@,
            },
    {
        match self {
            RenderError::WrongTargetPath(path) => String::from_str("wrong target path ").concat(
                path.as_str(),
            ).concat(": must be absolute path to existing directory"),
            RenderError::Io(_) => String::from_str("io error"),
        }
    }
}

/// What stopped a rendering, with what was planned before it stopped.
#[derive(Debug)]
pub struct Stopped {
    /// The plans of the layers before the one that failed, in their order.
    pub plans: Vec<LayerPlan>,
    /// Of the layer that failed, the plan for the entries that were read
    /// before its archive broke; none of its directories is applied. `None`
    /// where the layer could not be decompressed, or the target is wrong.
    pub partial: Option<LayerPlan>,
    /// Why the rendering stopped.
    pub error: RenderError,
}

/// The tar stream of a layer; `None` where its bytes cannot be decompressed.
pub open spec fn layer_archive(layer: LayerBlobView) -> Option<Seq<u8>> {
    decoded(compression_of(layer.media_type), layer.bytes)
}

/// Whether a plan can be made for the whole of a layer: its bytes can be
/// decompressed and its archive can be read to its end.
pub open spec fn readable(layer: LayerBlobView) -> bool {
    layer_archive(layer) matches Some(archive) && archive_whole(archive)
}

/// Whether `plan` holds the archive of `layer` and the entries that can be
/// read of it.
pub open spec fn holds_layer(layer: LayerBlobView, plan: PlanView) -> bool {
    &&& layer_archive(layer) == Some(plan.archive)
    &&& entry_pairs(plan.entries) == archive_entries(plan.archive)
}

/// Whether `plan` is the plan for `layer`, which can be read to its end.
pub open spec fn plans_layer(layer: LayerBlobView, plan: PlanView) -> bool {
    &&& holds_layer(layer, plan)
    &&& archive_whole(plan.archive)
    &&& is_plan(plan.entries, plan)
    &&& confined(plan)
}

/// Whether `plan` is the plan for what can be read of `layer`, whose archive
/// breaks.
pub open spec fn plans_part(layer: LayerBlobView, plan: PlanView) -> bool {
    &&& holds_layer(layer, plan)
    &&& !archive_whole(plan.archive)
    &&& is_cut_plan(plan.entries, plan)
    &&& confined(plan)
}

/// A layer of the given bytes with no media type.
pub open spec fn bare_layer(bytes: Seq<u8>) -> LayerBlobView {
    LayerBlobView { bytes, media_type: None }
}

/// The layers of a slice as mathematical values.
pub open spec fn layer_views(layers: Seq<LayerBlob>) -> Seq<LayerBlobView> {
    Seq::new(layers.len(), |i: int| layers[i]@)
}

/// Plain bytes as layers with no media type.
pub open spec fn bare_layers(layers: Seq<Vec<u8>>) -> Seq<LayerBlobView> {
    Seq::new(layers.len(), |i: int| bare_layer(layers[i]@))
}

/// Plans as mathematical values.
pub open spec fn plan_views(plans: Seq<LayerPlan>) -> Seq<PlanView> {
    Seq::new(plans.len(), |i: int| plans[i]@)
}

/// Whether `plans` are the plans of the first layers, one for each, in their
/// order; each of those layers can then be read to its end.
pub open spec fn covers(layers: Seq<LayerBlobView>, plans: Seq<PlanView>) -> bool {
    &&& plans.len() <= layers.len()
    &&& forall|i: int|
        0 <= i < plans.len() ==> plans_layer(layers[i], #[trigger] plans[i])
}

/// Whether each of the plans was made with the answers of `predicate`.
pub open spec fn all_follow<P: Fn(&Vec<u8>) -> bool>(plans: &Vec<LayerPlan>, predicate: &P) -> bool {
    forall|i: int| 0 <= i < plans.len() ==> follows(#[trigger] &plans[i], predicate)
}

/// Whether each of the plans extracts every entry that can be extracted.
pub open spec fn all_extract(plans: Seq<PlanView>) -> bool {
    forall|i: int| 0 <= i < plans.len() ==> extracts_all(#[trigger] plans[i])
}

/// Whether `stopped` says how the rendering of `layers` stopped: at the first
/// layer that cannot be read, with the plans of the layers before it, and
/// with the part of it that was planned, which is none exactly where the
/// layer cannot be decompressed.
pub open spec fn stops_at_first_failure(layers: Seq<LayerBlobView>, stopped: &Stopped) -> bool {
    &&& stopped.error is Io
    &&& covers(layers, plan_views(stopped.plans@))
    &&& stopped.plans.len() < layers.len()
    &&& !readable(layers[stopped.plans.len() as int])
    &&& match stopped.partial {
        Some(part) => plans_part(layers[stopped.plans.len() as int], part@),
        None => layer_archive(layers[stopped.plans.len() as int]) is None,
    }
}

/// Whether `stopped` says that the target is wrong: nothing was planned.
pub open spec fn stops_at_target(target_dir: &TargetDir, stopped: &Stopped) -> bool {
    &&& stopped.error matches RenderError::WrongTargetPath(path) && path@ == target_dir.path@
    &&& stopped.plans.len() == 0
    &&& stopped.partial is None
}

/// Whether every plan that `stopped` holds was made with the answers of
/// `predicate`.
pub open spec fn stopped_follows<P: Fn(&Vec<u8>) -> bool>(stopped: &Stopped, predicate: &P) -> bool {
    &&& all_follow(&stopped.plans, predicate)
    &&& stopped.partial matches Some(part) ==> follows(&part, predicate)
}

/// Whether every plan that `stopped` holds extracts every entry that can be
/// extracted.
pub open spec fn stopped_extracts_all(stopped: &Stopped) -> bool {
    &&& all_extract(plan_views(stopped.plans@))
    &&& stopped.partial matches Some(part) ==> extracts_all(part@)
}

/// Checks the target: layers are unpacked only into an absolute path to an
/// existing directory.
pub fn check_target(target_dir: &TargetDir) -> (r: Result<(), RenderError>)
    ensures
        r is Ok <==> target_dir.usable(),
        r matches Err(e) ==> (e matches RenderError::WrongTargetPath(path) && path@
            == target_dir.path@),
{
    if target_dir.is_absolute && target_dir.exists && target_dir.is_dir {
        Ok(())
    } else {
        Err(RenderError::WrongTargetPath(target_dir.path.clone()))
    }
}

/// Plans one layer: decompresses it, lists its archive, and decides the step
/// for each entry, asking `predicate` about each entry that could be
/// extracted.
///
/// Fails where the layer cannot be decompressed, with nothing planned, and
/// where its archive breaks, with the plan for the entries before the break.
pub fn unpack_layer<P: Fn(&Vec<u8>) -> bool>(layer: &LayerBlob, predicate: &P) -> (r: Result<
    LayerPlan,
    Stopped,
>)
    requires
        forall|p: &Vec<u8>| predicate.requires((p,)),
    ensures
        match r {
            Ok(plan) => readable(layer@) && plans_layer(layer@, plan@) && follows(
                &plan,
                predicate,
            ),
            Err(stopped) => stops_at_first_failure(seq![layer@], &stopped) && stopped_follows(
                &stopped,
                predicate,
            ),
        },
{
    let archive = match decompress(compression_for(&layer.media_type), &layer.bytes) {
        Ok(archive) => archive,
        Err(e) => {
            let stopped = Stopped { plans: Vec::new(), partial: None, error: RenderError::Io(e) };
            assert(plan_views(stopped.plans@) =~= Seq::empty());
            return Err(stopped);
        },
    };
    let (entries, broke) = list_entries(&archive);
    match broke {
        None => Ok(plan_entries(archive, entries, true, predicate)),
        Some(e) => {
            let part = plan_entries(archive, entries, false, predicate);
            let stopped = Stopped {
                plans: Vec::new(),
                partial: Some(part),
                error: RenderError::Io(e),
            };
            assert(plan_views(stopped.plans@) =~= Seq::empty());
            Err(stopped)
        },
    }
}

/// Plans the unpacking of an ordered list of layers into a target directory,
/// extracting only the entries whose path `predicate` accepts. Whiteouts and
/// directories do not pass through the predicate.
///
/// Lower layers come first. Fails with `WrongTargetPath` where the target is
/// not an absolute path to an existing directory, whatever the layers; else
/// with `Io` at the first layer that cannot be read, handing out what was
/// planned before; else returns one plan for each layer, in the order of the
/// layers.
pub fn filter_unpack_layers<P: Fn(&Vec<u8>) -> bool>(
    layers: &[LayerBlob],
    target_dir: &TargetDir,
    predicate: P,
) -> (r: Result<Vec<LayerPlan>, Stopped>)
    requires
        forall|p: &Vec<u8>| predicate.requires((p,)),
    ensures
        !target_dir.usable() ==> (r matches Err(stopped) && stops_at_target(target_dir, &stopped)),
        target_dir.usable() ==> (r is Ok <==> forall|i: int|
            0 <= i < layers@.len() ==> readable(#[trigger] layers@[i]@)),
        target_dir.usable() ==> (r matches Err(stopped) ==> stops_at_first_failure(
            layer_views(layers@),
            &stopped,
        )),
        r matches Err(stopped) ==> stopped_follows(&stopped, &predicate),
        r matches Ok(plans) ==> plans.len() == layers@.len() && covers(
            layer_views(layers@),
            plan_views(plans@),
        ) && all_follow(&plans, &predicate),
{
    match check_target(target_dir) {
        Ok(()) => {},
        Err(error) => {
            return Err(Stopped { plans: Vec::new(), partial: None, error });
        },
    }
    let ghost views = layer_views(layers@);
    let mut plans: Vec<LayerPlan> = Vec::new();
    let mut i: usize = 0;
    while i < layers.len()
        invariant
            i <= layers@.len(),
            plans.len() == i,
            target_dir.usable(),
            views == layer_views(layers@),
            forall|p: &Vec<u8>| predicate.requires((p,)),
            covers(views, plan_views(plans@)),
            all_follow(&plans, &predicate),
        decreases layers@.len() - i,
    {
        let ghost before = plans@;
        match unpack_layer(&layers[i], &predicate) {
            Ok(plan) => {
                plans.push(plan);
                proof {
                    assert(views[i as int] == layers@[i as int]@);
                    assert forall|j: int| 0 <= j < plans.len() implies plans_layer(
                        views[j],
                        #[trigger] plan_views(plans@)[j],
                    ) by {
                        if j < i {
                            assert(plans@[j] == before[j]);
                            assert(plan_views(plans@)[j] == plan_views(before)[j]);
                        } else {
                            assert(plan_views(plans@)[j] == plan@);
                        }
                    }
                    assert forall|j: int| 0 <= j < plans.len() implies follows(
                        #[trigger] &plans[j],
                        &predicate,
                    ) by {
                        if j < i {
                            assert(plans[j] == before[j]);
                        }
                    }
                }
            },
            Err(stopped) => {
                assert(seq![layers@[i as int]@][0] == views[i as int]);
                assert(stopped.plans@.len() == 0);
                return Err(Stopped { plans, partial: stopped.partial, error: stopped.error });
            },
        }
        i = i + 1;
    }
    assert forall|j: int| 0 <= j < layers@.len() implies readable(#[trigger] layers@[j]@) by {
        assert(plans_layer(views[j], plan_views(plans@)[j]));
    }
    Ok(plans)
}

/// Plans the unpacking of an ordered list of gzip-compressed layers into a
/// target directory, extracting only the entries whose path `predicate`
/// accepts.
///
/// As `filter_unpack_layers`, with every layer taken as one without a media
/// type.
pub fn filter_unpack<P: Fn(&Vec<u8>) -> bool>(
    layers: &[Vec<u8>],
    target_dir: &TargetDir,
    predicate: P,
) -> (r: Result<Vec<LayerPlan>, Stopped>)
    requires
        forall|p: &Vec<u8>| predicate.requires((p,)),
    ensures
        !target_dir.usable() ==> (r matches Err(stopped) && stops_at_target(target_dir, &stopped)),
        target_dir.usable() ==> (r is Ok <==> forall|i: int|
            0 <= i < layers@.len() ==> readable(bare_layer(#[trigger] layers@[i]@))),
        target_dir.usable() ==> (r matches Err(stopped) ==> stops_at_first_failure(
            bare_layers(layers@),
            &stopped,
        )),
        r matches Err(stopped) ==> stopped_follows(&stopped, &predicate),
        r matches Ok(plans) ==> plans.len() == layers@.len() && covers(
            bare_layers(layers@),
            plan_views(plans@),
        ) && all_follow(&plans, &predicate),
{
    let mut blobs: Vec<LayerBlob> = Vec::new();
    let mut i: usize = 0;
    while i < layers.len()
        invariant
            i <= layers@.len(),
            blobs.len() == i,
            forall|j: int| 0 <= j < i ==> (#[trigger] blobs[j])@ == bare_layer(layers@[j]@),
        decreases layers@.len() - i,
    {
        blobs.push(LayerBlob { bytes: layers[i].clone(), media_type: None });
        i = i + 1;
    }
    assert(layer_views(blobs@) =~= bare_layers(layers@));
    let r = filter_unpack_layers(blobs.as_slice(), target_dir, predicate);
    proof {
        assert forall|j: int| 0 <= j < layers@.len() implies (readable(
            bare_layer(#[trigger] layers@[j]@),
        ) <==> readable(blobs@[j]@)) by {
            assert(blobs[j]@ == bare_layer(layers@[j]@));
        }
    }
    r
}

/// Plans the unpacking of an ordered list of layers into a target directory.
///
/// The layers are gzip-compressed tar archives, lower layers first. Every
/// entry that can be extracted is.
pub fn unpack(layers: &[Vec<u8>], target_dir: &TargetDir) -> (r: Result<Vec<LayerPlan>, Stopped>)
    ensures
        !target_dir.usable() ==> (r matches Err(stopped) && stops_at_target(target_dir, &stopped)),
        target_dir.usable() ==> (r is Ok <==> forall|i: int|
            0 <= i < layers@.len() ==> readable(bare_layer(#[trigger] layers@[i]@))),
        target_dir.usable() ==> (r matches Err(stopped) ==> stops_at_first_failure(
            bare_layers(layers@),
            &stopped,
        )),
        r matches Err(stopped) ==> stopped_extracts_all(&stopped),
        r matches Ok(plans) ==> plans.len() == layers@.len() && covers(
            bare_layers(layers@),
            plan_views(plans@),
        ) && all_extract(plan_views(plans@)),
{
    let every = |_path: &Vec<u8>| -> (accepted: bool)
        ensures
            accepted,
        { true };
    let r = filter_unpack(layers, target_dir, every);
    proof {
        lemma_all_extracted(bare_layers(layers@), target_dir, &r, &every);
    }
    r
}

/// Plans the unpacking of an ordered list of layer blobs into a target
/// directory.
///
/// The layers are tar archives compressed as their media types say, lower
/// layers first. Every entry that can be extracted is.
pub fn unpack_layers(layers: &[LayerBlob], target_dir: &TargetDir) -> (r: Result<
    Vec<LayerPlan>,
    Stopped,
>)
    ensures
        !target_dir.usable() ==> (r matches Err(stopped) && stops_at_target(target_dir, &stopped)),
        target_dir.usable() ==> (r is Ok <==> forall|i: int|
            0 <= i < layers@.len() ==> readable(#[trigger] layers@[i]@)),
        target_dir.usable() ==> (r matches Err(stopped) ==> stops_at_first_failure(
            layer_views(layers@),
            &stopped,
        )),
        r matches Err(stopped) ==> stopped_extracts_all(&stopped),
        r matches Ok(plans) ==> plans.len() == layers@.len() && covers(
            layer_views(layers@),
            plan_views(plans@),
        ) && all_extract(plan_views(plans@)),
{
    let every = |_path: &Vec<u8>| -> (accepted: bool)
        ensures
            accepted,
        { true };
    let r = filter_unpack_layers(layers, target_dir, every);
    proof {
        lemma_all_extracted(layer_views(layers@), target_dir, &r, &every);
    }
    r
}

/// Layers can be rendered in chunks: the plans of the first layers followed
/// by the plans of the layers after them are the plans of all, each layer
/// planned once, in its place.
pub proof fn law_chunks_join(
    first: Seq<LayerBlobView>,
    second: Seq<LayerBlobView>,
    first_plans: Seq<PlanView>,
    second_plans: Seq<PlanView>,
)
    requires
        covers(first, first_plans),
        first_plans.len() == first.len(),
        covers(second, second_plans),
    ensures
        covers(first + second, first_plans + second_plans),
{
    let layers = first + second;
    let plans = first_plans + second_plans;
    assert forall|i: int| 0 <= i < plans.len() implies plans_layer(
        layers[i],
        #[trigger] plans[i],
    ) by {
        if i < first.len() {
            assert(plans[i] == first_plans[i]);
        } else {
            assert(plans[i] == second_plans[i - first.len()]);
            assert(layers[i] == second[i - first.len()]);
        }
    }
}

/// A plan that follows a predicate which accepts every path extracts every
/// entry that can be extracted.
proof fn lemma_accepting_extracts_all<P: Fn(&Vec<u8>) -> bool>(plan: &LayerPlan, predicate: &P)
    requires
        follows(plan, predicate),
        plan@.steps.len() == plan@.entries.len(),
        forall|p: &Vec<u8>, accepted: bool| predicate.ensures((p,), accepted) ==> accepted,
    ensures
        extracts_all(plan@),
{
    assert forall|i: int|
        0 <= i < plan@.entries.len() && is_candidate(
            #[trigger] plan@.entries[i],
        ) implies plan@.steps[i] is Extract by {
        assert(plan@.entries[i] == plan.entries[i]@);
        assert(predicate.ensures((&plan.entries[i].path,), plan.steps[i] is Extract));
        assert(plan@.steps[i] == plan.steps[i]@);
    }
}

/// What was planned with a predicate that accepts every path extracts every
/// entry that can be extracted.
proof fn lemma_all_extracted<P: Fn(&Vec<u8>) -> bool>(
    layers: Seq<LayerBlobView>,
    target_dir: &TargetDir,
    r: &Result<Vec<LayerPlan>, Stopped>,
    predicate: &P,
)
    requires
        forall|p: &Vec<u8>, accepted: bool| predicate.ensures((p,), accepted) ==> accepted,
        r matches Ok(plans) ==> all_follow(&plans, predicate) && covers(layers, plan_views(plans@)),
        r matches Err(stopped) ==> stopped_follows(&stopped, predicate) && (stops_at_target(
            target_dir,
            &stopped,
        ) || stops_at_first_failure(layers, &stopped)),
    ensures
        r matches Ok(plans) ==> all_extract(plan_views(plans@)),
        r matches Err(stopped) ==> stopped_extracts_all(&stopped),
{
    match r {
        Ok(plans) => {
            assert forall|i: int| 0 <= i < plans.len() implies extracts_all(
                #[trigger] plan_views(plans@)[i],
            ) by {
                assert(follows(&plans[i], predicate));
                assert(plans_layer(layers[i], plan_views(plans@)[i]));
                lemma_accepting_extracts_all(&plans[i], predicate);
            }
        },
        Err(stopped) => {
            assert forall|i: int| 0 <= i < stopped.plans.len() implies extracts_all(
                #[trigger] plan_views(stopped.plans@)[i],
            ) by {
                assert(follows(&stopped.plans[i], predicate));
                assert(plans_layer(layers[i], plan_views(stopped.plans@)[i]));
                lemma_accepting_extracts_all(&stopped.plans[i], predicate);
            }
            match stopped.partial {
                Some(part) => {
                    lemma_accepting_extracts_all(&part, predicate);
                },
                None => {},
            }
        },
    }
}

} // verus!
