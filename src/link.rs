use vstd::prelude::*;

use crate::cli::{app_dir, App, Apps};
use crate::path::{
    expand_app, expand_app_spec, is_ref, join_spec, lemma_app_missing, lemma_to_path_valid, render_spec, to_path, to_path_spec, Env, Path,
    PathError, PathFault, PathView,
};

verus! {

/// How a link location relates to its intended target.
pub enum LinkStatus {
    /// The location is absent and the target exists: the link can be made.
    SrcUnexists,
    /// Neither the location nor the target exists.
    DstUnexists,
    /// The location already points at the target.
    Exists,
    /// The location points somewhere else, given here.
    Unexpected(Path),
}

/// The abstract value of a `LinkStatus`.
pub enum StatusView {
    SrcUnexists,
    DstUnexists,
    Exists,
    Unexpected(PathView),
}

impl View for LinkStatus {
    type V = StatusView;

    open spec fn view(&self) -> StatusView {
        match self {
            LinkStatus::SrcUnexists => StatusView::SrcUnexists,
            LinkStatus::DstUnexists => StatusView::DstUnexists,
            LinkStatus::Exists => StatusView::Exists,
            LinkStatus::Unexpected(p) => StatusView::Unexpected(p@),
        }
    }
}

/// One resolved link: the location `src`, its intended target `dst`, and their relation.
pub struct Link {
    pub src: Path,
    pub dst: Path,
    pub status: LinkStatus,
}

/// What the filesystem holds at a link location.
pub enum SrcState {
    /// Nothing is there, not even a dangling link.
    Absent,
    /// A symbolic link whose recorded target is given.
    Symlink(Path),
    /// Something is there whose link target could not be read, with the message.
    Unreadable(String),
}

/// What was observed on the filesystem about one link.
pub struct Probe {
    pub src: SrcState,
    pub dst_exists: bool,
}

/// The status of a link with target `dst` given what was observed; a location
/// that is present is judged by its recorded target alone.
pub open spec fn classify(probe: Probe, dst: PathView) -> Result<StatusView, Seq<char>> {
    match probe.src {
        SrcState::Symlink(p) => if p@ == dst {
            Ok(StatusView::Exists)
        } else {
            Ok(StatusView::Unexpected(p@))
        },
        SrcState::Unreadable(m) => Err(m@),
        SrcState::Absent => if probe.dst_exists {
            Ok(StatusView::SrcUnexists)
        } else {
            Ok(StatusView::DstUnexists)
        },
    }
}

/// The location and target of a link pair `(dst_token, src_token)`: the target
/// token has its variables and then its application references expanded and is
/// placed under `dstdir`; the location token has its variables expanded and is
/// placed under `srcdir`. Gives `(src, dst)`.
pub open spec fn resolve_spec(
    apps: Seq<(String, App)>,
    dstdir: PathView,
    srcdir: PathView,
    link: (Seq<char>, Seq<char>),
    vars: Seq<(String, String)>,
) -> Result<(PathView, PathView), PathFault> {
    match to_path_spec(link.0, vars) {
        Err(f) => Err(f),
        Ok(e) => match expand_app_spec(e, apps) {
            Err(n) => Err(PathFault::NoSuchApp(n)),
            Ok(a) => match to_path_spec(link.1, vars) {
                Err(f) => Err(f),
                Ok(s) => Ok((join_spec(srcdir, s), join_spec(dstdir, a))),
            },
        },
    }
}

impl Link {
    fn src_unexists(src: Path, dst: Path) -> (r: Link)
        ensures
            r.src == src,
            r.dst == dst,
            r.status is SrcUnexists,
    {
        Link { src, dst, status: LinkStatus::SrcUnexists }
    }

    fn dst_unexists(src: Path, dst: Path) -> (r: Link)
        ensures
            r.src == src,
            r.dst == dst,
            r.status is DstUnexists,
    {
        Link { src, dst, status: LinkStatus::DstUnexists }
    }

    fn existing(src: Path, dst: Path) -> (r: Link)
        ensures
            r.src == src,
            r.dst == dst,
            r.status is Exists,
    {
        Link { src, dst, status: LinkStatus::Exists }
    }

    fn unexpected(src: Path, dst: Path, expected: Path) -> (r: Link)
        ensures
            r.src == src,
            r.dst == dst,
            r.status == LinkStatus::Unexpected(expected),
    {
        Link { src, dst, status: LinkStatus::Unexpected(expected) }
    }
}

/// The location and target of the link pair `link` of an application with
/// directories `dstdir` and `srcdir`, as `(src, dst)`.
pub fn resolve_link(apps: &Apps, dstdir: &Path, srcdir: &Path, link: &(String, String), env: &Env) -> (r:
    Result<(Path, Path), PathError>)
    ensures
        match r {
            Ok((s, d)) => resolve_spec(apps.0@, dstdir@, srcdir@, (link.0@, link.1@), env.vars@) == Ok::<
                (PathView, PathView),
                PathFault,
            >((s@, d@)),
            Err(e) => resolve_spec(apps.0@, dstdir@, srcdir@, (link.0@, link.1@), env.vars@) == Err::<
                (PathView, PathView),
                PathFault,
            >(e@),
        },
{
    let e = match to_path(link.0.as_str(), env) {
        Ok(e) => e,
        Err(err) => return Err(err),
    };
    let a = match expand_app(apps, &e) {
        Ok(a) => a,
        Err(err) => return Err(err),
    };
    let dst = dstdir.join(&a);
    let s = match to_path(link.1.as_str(), env) {
        Ok(s) => s,
        Err(err) => return Err(err),
    };
    let src = srcdir.join(&s);
    Ok((src, dst))
}

/// The link from `src` to `dst`, classified by what was observed there.
pub fn check_link(src: Path, dst: Path, probe: Probe) -> (r: Result<Link, PathError>)
    ensures
        match r {
            Ok(l) => l.src@ == src@ && l.dst@ == dst@ && classify(probe, dst@) == Ok::<
                StatusView,
                Seq<char>,
            >(l.status@),
            Err(e) => e is IoError && classify(probe, dst@) == Err::<StatusView, Seq<char>>(
                e->IoError_0@,
            ),
        },
        (probe.src is Absent && !probe.dst_exists) ==> (r matches Ok(l) && l.status is DstUnexists),
        (probe.src is Absent && probe.dst_exists) ==> (r matches Ok(l) && l.status is SrcUnexists),
        (probe.src matches SrcState::Symlink(p) && p@ == dst@) ==> (r matches Ok(l)
            && l.status is Exists),
        (probe.src matches SrcState::Symlink(p) && p@ != dst@) ==> (r matches Ok(l)
            && l.status@ == StatusView::Unexpected(probe.src->Symlink_0@)),
{
    match probe.src {
        SrcState::Symlink(real_dst) => {
            if dst.same(&real_dst) {
                Ok(Link::existing(src, dst))
            } else {
                Ok(Link::unexpected(src, dst, real_dst))
            }
        },
        SrcState::Unreadable(m) => Err(PathError::IoError(m)),
        SrcState::Absent => {
            if !probe.dst_exists {
                Ok(Link::dst_unexists(src, dst))
            } else {
                Ok(Link::src_unexists(src, dst))
            }
        },
    }
}

/// The directory that holds the link location `src`.
pub fn link_parent(src: &Path) -> (r: Result<Path, PathError>)
    ensures
        match r {
            Ok(p) => src@.1.len() > 0 && p@ == (src@.0, src@.1.drop_last()),
            Err(e) => src@.1.len() == 0 && e@ == PathFault::NoParent(render_spec(src@)),
        },
{
    let mut p = src.copy();
    if p.comps.len() == 0 {
        Err(PathError::NoParent(src.render()))
    } else {
        p.comps.pop();
        assert(p@.1 =~= src@.1.drop_last());
        Ok(p)
    }
}

/// The link from `src` to `dst` once it has been created; `created` is what
/// creating the parent directories and the link itself gave.
pub fn make_link(src: Path, dst: Path, created: Result<(), String>) -> (r: Result<Link, PathError>)
    ensures
        match r {
            Ok(l) => src@.1.len() > 0 && created is Ok && l.src@ == src@ && l.dst@ == dst@
                && l.status is Exists,
            Err(e) => if src@.1.len() == 0 {
                e@ == PathFault::NoParent(render_spec(src@))
            } else {
                created matches Err(m) && e@ == PathFault::IoError(m@)
            },
        },
{
    if let Err(e) = link_parent(&src) {
        return Err(e);
    }
    match created {
        Ok(()) => Ok(Link::existing(src, dst)),
        Err(m) => Err(PathError::IoError(m)),
    }
}

/// A link pair whose target token, once its variables are expanded, refers at
/// component `k` to an application `@name` that is not registered, with no
/// earlier application reference, fails to resolve naming that application.
pub proof fn lemma_resolve_missing_app(
    apps: Seq<(String, App)>,
    dstdir: PathView,
    srcdir: PathView,
    link: (Seq<char>, Seq<char>),
    vars: Seq<(String, String)>,
    k: int,
)
    requires
        to_path_spec(link.0, vars) is Ok,
        0 <= k < to_path_spec(link.0, vars)->Ok_0.1.len(),
        is_ref(to_path_spec(link.0, vars)->Ok_0.1[k], '@'),
        app_dir(apps, to_path_spec(link.0, vars)->Ok_0.1[k].drop_first()) is None,
        forall|j: int| 0 <= j < k ==> !is_ref(#[trigger] to_path_spec(link.0, vars)->Ok_0.1[j], '@'),
    ensures
        resolve_spec(apps, dstdir, srcdir, link, vars) == Err::<(PathView, PathView), PathFault>(
            PathFault::NoSuchApp(to_path_spec(link.0, vars)->Ok_0.1[k].drop_first()),
        ),
{
    let e = to_path_spec(link.0, vars)->Ok_0;
    lemma_to_path_valid(link.0, vars);
    lemma_app_missing(e, k, apps);
}

/// What the filesystem shows at a location once a link to `dst` was made there.
pub open spec fn probe_after_link(dst: Path, before: Probe) -> Probe {
    Probe { src: SrcState::Symlink(dst), dst_exists: before.dst_exists }
}

/// A link that was ready to be made, once made, is found in place.
pub proof fn lemma_made_link_exists(dst: Path, before: Probe)
    requires
        classify(before, dst@) == Ok::<StatusView, Seq<char>>(StatusView::SrcUnexists),
    ensures
        before.src is Absent && before.dst_exists,
        classify(probe_after_link(dst, before), dst@) == Ok::<StatusView, Seq<char>>(
            StatusView::Exists,
        ),
{
}

} // verus!
