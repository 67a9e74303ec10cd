//! The orchestration rules: which discovered or observed files become
//! conversion requests, and when a task may skip its work.

use crate::model::Config;
use crate::paths::{is_png, is_png_spec, map_dest_spec, newfname_from_origfname, FilePath};
use vstd::prelude::*;

verus! {

/// One unit of work: a source file and the destination derived for it.
pub struct Request {
    pub from: FilePath,
    pub into: FilePath,
}

/// The kind of a filesystem event, as far as the pipeline cares: only
/// creation events lead to work.
#[derive(Clone, Copy, Debug, PartialEq, Eq, Structural)]
pub enum FsEventKind {
    Create,
    Other,
}

/// Where a request came from: the one-shot startup scan, or a live
/// filesystem watch.
#[derive(Clone, Copy, Debug, PartialEq, Eq, Structural)]
pub enum RequestOrigin {
    Scan,
    Watch,
}

/// The delay before a task may open its source: scan-discovered files
/// start at once, watch-observed files wait the configured read delay so a
/// slow writer can finish flushing first.
pub fn read_delay_for(origin: RequestOrigin, config: &Config) -> (r: u64)
    ensures
        origin == RequestOrigin::Scan ==> r == 0,
        origin == RequestOrigin::Watch ==> r == config.read_delay_ms,
{
    match origin {
        RequestOrigin::Scan => 0,
        RequestOrigin::Watch => config.read_delay_ms,
    }
}

/// A task performs its work exactly when the destination does not exist
/// yet; an existing destination is never overwritten.
pub fn should_convert(destination_exists: bool) -> (r: bool)
    ensures
        r == !destination_exists,
{
    !destination_exists
}

/// The sources among `paths` that carry the recognized input extension, in
/// order.
pub open spec fn png_sources(paths: Seq<FilePath>) -> Seq<FilePath>
    decreases paths.len(),
{
    if paths.len() == 0 {
        Seq::empty()
    } else {
        let rest = png_sources(paths.drop_last());
        if is_png_spec(&paths.last()) {
            rest.push(paths.last())
        } else {
            rest
        }
    }
}

/// Every selected source carries the recognized input extension; a file of
/// any other kind is never submitted for conversion.
pub proof fn lemma_png_sources_only_matching(paths: Seq<FilePath>)
    ensures
        forall|i: int|
            0 <= i < png_sources(paths).len() ==> is_png_spec(&png_sources(paths)[i]),
    decreases paths.len(),
{
    if paths.len() > 0 {
        lemma_png_sources_only_matching(paths.drop_last());
        let rest = png_sources(paths.drop_last());
        assert forall|i: int| 0 <= i < png_sources(paths).len() implies is_png_spec(
            &png_sources(paths)[i],
        ) by {
            if is_png_spec(&paths.last()) {
                if i < rest.len() {
                    assert(png_sources(paths)[i] == rest[i]);
                } else {
                    assert(png_sources(paths)[i] == paths.last());
                }
            } else {
                assert(png_sources(paths)[i] == rest[i]);
            }
        }
    }
}

/// The sources selected from a batch's prefix stand unchanged, at the same
/// places, among those selected from the whole batch.
proof fn lemma_png_sources_take(paths: Seq<FilePath>, k: int)
    requires
        0 <= k <= paths.len(),
    ensures
        png_sources(paths.take(k)).len() <= png_sources(paths).len(),
        forall|j: int|
            0 <= j < png_sources(paths.take(k)).len() ==> png_sources(paths.take(k))[j]
                == png_sources(paths)[j],
    decreases paths.len() - k,
{
    if k == paths.len() {
        assert(paths.take(k) =~= paths);
    } else {
        assert(paths.take(k + 1).drop_last() =~= paths.take(k));
        assert(paths.take(k + 1).last() == paths[k]);
        lemma_png_sources_take(paths, k + 1);
    }
}

/// A request pairs this source, up to representation, with the
/// destination the mapper derives for it.
pub open spec fn request_matches(q: Request, src: FilePath, config: &Config) -> bool {
    &&& q.from.rooted == src.rooted
    &&& q.from.comps() == src.comps()
    &&& (map_dest_spec(&src, &config.input_path, &config.output_path, config.flatten)
        matches Some(d) && q.into.rooted == d.0 && q.into.comps() == d.1)
}

/// Every source with the recognized input extension maps to a destination.
/// Where this fails, a source was discovered outside the input root while
/// mirroring: a violated invariant of the program, on which the caller must
/// abort rather than drop the file.
pub open spec fn all_sources_map(paths: Seq<FilePath>, config: &Config) -> bool {
    forall|i: int|
        0 <= i < png_sources(paths).len() ==> map_dest_spec(
            &png_sources(paths)[i],
            &config.input_path,
            &config.output_path,
            config.flatten,
        ) is Some
}

/// Turn a batch of discovered files into conversion requests: exactly the
/// sources carrying the recognized input extension, in order, each paired
/// with its mapped destination. `None` reports the violated invariant of a
/// matching source that has no destination (one outside the input root
/// while mirroring): the caller must treat it as fatal.
pub fn requests_from_paths(paths: Vec<FilePath>, config: &Config) -> (r: Option<Vec<Request>>)
    ensures
        r is Some <==> all_sources_map(paths@, config),
        r matches Some(v) ==> v@.len() == png_sources(paths@).len() && forall|i: int|
            0 <= i < v@.len() ==> request_matches(#[trigger] v@[i], png_sources(paths@)[i], config),
{
    let mut r: Vec<Request> = Vec::new();
    let ghost all = paths@;
    let mut i: usize = 0;
    while i < paths.len()
        invariant
            i <= all.len(),
            paths@ == all,
            r@.len() == png_sources(all.take(i as int)).len(),
            forall|j: int|
                0 <= j < r@.len() ==> request_matches(
                    #[trigger] r@[j],
                    png_sources(all.take(i as int))[j],
                    config,
                ),
        decreases all.len() - i,
    {
        let from = paths[i].duplicate();
        proof {
            assert(all.take(i as int + 1).drop_last() =~= all.take(i as int));
            assert(all.take(i as int + 1).last() == all[i as int]);
            assert(from.rooted == all[i as int].rooted && from.comps() == all[i as int].comps());
            assert(is_png_spec(&from) == is_png_spec(&all[i as int]));
            assert(map_dest_spec(&from, &config.input_path, &config.output_path, config.flatten)
                == map_dest_spec(
                &all[i as int],
                &config.input_path,
                &config.output_path,
                config.flatten,
            ));
        }
        if is_png(&from) {
            match newfname_from_origfname(
                &from,
                &config.input_path,
                &config.output_path,
                config.flatten,
            ) {
                Some(into) => {
                    r.push(Request { from, into });
                },
                None => {
                    proof {
                        let m = png_sources(all.take(i as int)).len() as int;
                        assert(png_sources(all.take(i as int + 1))[m] == all[i as int]);
                        lemma_png_sources_take(all, i as int + 1);
                        assert(png_sources(all)[m] == all[i as int]);
                        assert(map_dest_spec(
                            &png_sources(all)[m],
                            &config.input_path,
                            &config.output_path,
                            config.flatten,
                        ) is None);
                        assert(!all_sources_map(all, config));
                    }
                    return None;
                },
            }
        }
        i = i + 1;
    }
    proof {
        assert(all.take(all.len() as int) =~= all);
        assert forall|m: int| 0 <= m < png_sources(all).len() implies map_dest_spec(
            &png_sources(all)[m],
            &config.input_path,
            &config.output_path,
            config.flatten,
        ) is Some by {
            assert(request_matches(r@[m], png_sources(all)[m], config));
        }
    }
    Some(r)
}

/// Turn one filesystem event into conversion requests: only a creation
/// event yields work, and then exactly as a batch of discovered files
/// does, with the same fatal report for a matching source that has no
/// destination.
pub fn requests_from_event(kind: FsEventKind, paths: Vec<FilePath>, config: &Config) -> (r: Option<
    Vec<Request>,
>)
    ensures
        kind != FsEventKind::Create ==> (r matches Some(v) && v@.len() == 0),
        kind == FsEventKind::Create ==> (r is Some <==> all_sources_map(paths@, config)),
        kind == FsEventKind::Create ==> (r matches Some(v) ==> v@.len() == png_sources(
            paths@,
        ).len() && forall|i: int|
            0 <= i < v@.len() ==> request_matches(#[trigger] v@[i], png_sources(paths@)[i], config)),
{
    match kind {
        FsEventKind::Create => requests_from_paths(paths, config),
        FsEventKind::Other => Some(Vec::new()),
    }
}

} // verus!
