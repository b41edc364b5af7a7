use vstd::prelude::*;

use crate::path::{
    comps_view, expand_env, to_path, to_path_spec, expand_env_spec, join_spec, opt_path_view, opt_str_view, parse_spec,
    render_spec, Env, Path, PathError, PathFault, PathView,
};

verus! {

/// One application as written in the configuration.
pub struct AppConfig {
    pub srcdir: Option<String>,
    pub dstdir: Option<String>,
    pub description: Option<String>,
    pub links: Option<Vec<Vec<String>>>,
}

/// One configured application, with its directories resolved.
pub struct App {
    pub srcdir: Path,
    pub dstdir: Path,
    pub description: Option<String>,
    pub links: Vec<(String, String)>,
}

/// The abstract value of an `App`: source and destination directories,
/// description and link pairs.
pub type AppView = (PathView, PathView, Option<Seq<char>>, Seq<(Seq<char>, Seq<char>)>);

pub open spec fn pairs_view(v: Seq<(String, String)>) -> Seq<(Seq<char>, Seq<char>)> {
    v.map_values(|p: (String, String)| (p.0@, p.1@))
}

impl View for App {
    type V = AppView;

    open spec fn view(&self) -> AppView {
        (self.srcdir@, self.dstdir@, opt_str_view(self.description), pairs_view(self.links@))
    }
}

/// The registered applications by name, in configuration order.
pub struct Apps(pub Vec<(String, App)>);

pub open spec fn apps_view(v: Seq<(String, App)>) -> Seq<(Seq<char>, AppView)> {
    v.map_values(|e: (String, App)| (e.0@, e.1@))
}

impl View for Apps {
    type V = Seq<(Seq<char>, AppView)>;

    open spec fn view(&self) -> Seq<(Seq<char>, AppView)> {
        apps_view(self.0@)
    }
}

/// What can go wrong while building the registry.
pub enum ConfigError {
    /// A link entry of the named application has neither one nor two parts.
    InvalidLinkArity { app: String },
    /// A directory of an application could not be resolved.
    Path(PathError),
}

/// The abstract value of a `ConfigError`.
pub enum ConfigFault {
    InvalidLinkArity(Seq<char>),
    Path(PathFault),
}

impl View for ConfigError {
    type V = ConfigFault;

    open spec fn view(&self) -> ConfigFault {
        match self {
            ConfigError::InvalidLinkArity { app } => ConfigFault::InvalidLinkArity(app@),
            ConfigError::Path(e) => ConfigFault::Path(e@),
        }
    }
}

/// A link entry of one part links a name to itself; one of two parts gives
/// the target and the location; any other entry is refused.
pub open spec fn normalize_spec(l: Seq<Seq<char>>) -> Option<(Seq<char>, Seq<char>)> {
    if l.len() == 1 {
        Some((l[0], l[0]))
    } else if l.len() == 2 {
        Some((l[0], l[1]))
    } else {
        None
    }
}

/// All link entries normalized, or `None` if one is refused.
pub open spec fn links_spec(ls: Seq<Vec<String>>) -> Option<Seq<(Seq<char>, Seq<char>)>>
    decreases ls.len(),
{
    if ls.len() == 0 {
        Some(seq![])
    } else {
        match links_spec(ls.drop_last()) {
            None => None,
            Some(v) => match normalize_spec(comps_view(ls.last()@)) {
                Some(p) => Some(v.push(p)),
                None => None,
            },
        }
    }
}

/// A path with its variables expanded, or the error naming the path.
pub open spec fn env_result(p: PathView, vars: Seq<(String, String)>) -> Result<PathView, PathFault> {
    match expand_env_spec(p, vars) {
        Ok(v) => Ok(v),
        Err(c) => Err(PathFault::InvalidEnvVar(render_spec(p), c)),
    }
}

/// The live location of an application: the configured one, else the home directory.
pub open spec fn srcdir_spec(cfg: Option<String>, env: Env) -> Result<PathView, PathFault> {
    match cfg {
        None => Ok(env.home@),
        Some(s) => to_path_spec(s@, env.vars@),
    }
}

/// The managed directory of an application: the configured one, else its name,
/// under the base directory.
pub open spec fn dstdir_spec(base: PathView, name: Seq<char>, cfg: Option<String>, env: Env) -> Result<
    PathView,
    PathFault,
> {
    let tail = match cfg {
        Some(d) => d@,
        None => name,
    };
    env_result(join_spec(base, parse_spec(tail)), env.vars@)
}

/// The application `name` as configured by `cfg`.
pub open spec fn app_spec(base: PathView, name: Seq<char>, cfg: AppConfig, env: Env) -> Result<
    AppView,
    ConfigFault,
> {
    match srcdir_spec(cfg.srcdir, env) {
        Err(f) => Err(ConfigFault::Path(f)),
        Ok(s) => match dstdir_spec(base, name, cfg.dstdir, env) {
            Err(f) => Err(ConfigFault::Path(f)),
            Ok(d) => match cfg.links {
                None => Ok((s, d, opt_str_view(cfg.description), seq![])),
                Some(ls) => match links_spec(ls@) {
                    None => Err(ConfigFault::InvalidLinkArity(name)),
                    Some(l) => Ok((s, d, opt_str_view(cfg.description), l)),
                },
            },
        },
    }
}

/// The entries of `v` not registered under `name`, in order.
pub open spec fn without(v: Seq<(Seq<char>, AppView)>, name: Seq<char>) -> Seq<(Seq<char>, AppView)>
    decreases v.len(),
{
    if v.len() == 0 {
        v
    } else if v.last().0 == name {
        without(v.drop_last(), name)
    } else {
        without(v.drop_last(), name).push(v.last())
    }
}

/// The registry built from `entries` in order; the first failing application
/// gives the error. A name configured twice is registered once, by its later
/// entry, in that entry's place.
pub open spec fn apps_spec(base: PathView, entries: Seq<(String, AppConfig)>, env: Env) -> Result<
    Seq<(Seq<char>, AppView)>,
    ConfigFault,
>
    decreases entries.len(),
{
    if entries.len() == 0 {
        Ok(seq![])
    } else {
        match apps_spec(base, entries.drop_last(), env) {
            Err(f) => Err(f),
            Ok(v) => match app_spec(base, entries.last().0@, entries.last().1, env) {
                Ok(a) => Ok(without(v, entries.last().0@).push((entries.last().0@, a))),
                Err(f) => Err(f),
            },
        }
    }
}

/// The destination directory registered under `name`; a later entry wins.
pub open spec fn app_dir(apps: Seq<(String, App)>, name: Seq<char>) -> Option<PathView>
    decreases apps.len(),
{
    if apps.len() == 0 {
        None
    } else if apps.last().0@ == name {
        Some(apps.last().1.dstdir@)
    } else {
        app_dir(apps.drop_last(), name)
    }
}

proof fn lemma_links_none_stays(ls: Seq<Vec<String>>, k: int)
    requires
        0 <= k <= ls.len(),
        links_spec(ls.subrange(0, k)) is None,
    ensures
        links_spec(ls) is None,
    decreases ls.len(),
{
    if ls.len() > k {
        assert(ls.drop_last().subrange(0, k) =~= ls.subrange(0, k));
        lemma_links_none_stays(ls.drop_last(), k);
    } else {
        assert(ls.subrange(0, k) =~= ls);
    }
}

proof fn lemma_apps_err_stays(base: PathView, entries: Seq<(String, AppConfig)>, k: int, env: Env)
    requires
        0 <= k <= entries.len(),
        apps_spec(base, entries.subrange(0, k), env) is Err,
    ensures
        apps_spec(base, entries, env) == apps_spec(base, entries.subrange(0, k), env),
    decreases entries.len(),
{
    if entries.len() > k {
        assert(entries.drop_last().subrange(0, k) =~= entries.subrange(0, k));
        lemma_apps_err_stays(base, entries.drop_last(), k, env);
    } else {
        assert(entries.subrange(0, k) =~= entries);
    }
}

/// The entries of `v` not registered under `name`, in order.
fn drop_name(v: Vec<(String, App)>, name: &String) -> (r: Vec<(String, App)>)
    ensures
        apps_view(r@) == without(apps_view(v@), name@),
{
    let ghost all = v@;
    let mut rest = v;
    let mut out: Vec<(String, App)> = Vec::new();
    let ghost mut i: int = 0;
    assert(apps_view(all.subrange(0, 0)) =~= Seq::<(Seq<char>, AppView)>::empty());
    assert(apps_view(out@) =~= Seq::<(Seq<char>, AppView)>::empty());
    while rest.len() > 0
        invariant
            0 <= i <= all.len(),
            all == v@,
            rest@ == all.subrange(i, all.len() as int),
            apps_view(out@) == without(apps_view(all.subrange(0, i)), name@),
        decreases rest.len(),
    {
        let e = rest.remove(0);
        proof {
            assert(apps_view(all.subrange(0, i + 1)).drop_last() =~= apps_view(all.subrange(0, i)));
            assert(all.subrange(0, i + 1).last() == e);
            assert(rest@ =~= all.subrange(i + 1, all.len() as int));
        }
        if e.0 != *name {
            let ghost old_out = out@;
            let ghost ev = (e.0@, e.1@);
            out.push(e);
            assert(apps_view(out@) =~= apps_view(old_out).push(ev));
        }
        proof {
            i = i + 1;
        }
    }
    assert(all.subrange(0, all.len() as int) =~= all);
    out
}

/// Normalizes each link entry in order; `None` when one is refused.
fn normalize_links(ls: Vec<Vec<String>>) -> (r: Option<Vec<(String, String)>>)
    ensures
        match r {
            Some(v) => links_spec(ls@) == Some(pairs_view(v@)),
            None => links_spec(ls@) is None,
        },
{
    let ghost all = ls@;
    let mut rest = ls;
    let mut out: Vec<(String, String)> = Vec::new();
    let ghost mut i: int = 0;
    assert(all.subrange(0, 0) =~= Seq::<Vec<String>>::empty());
    assert(pairs_view(out@) =~= Seq::<(Seq<char>, Seq<char>)>::empty());
    while rest.len() > 0
        invariant
            0 <= i <= all.len(),
            all == ls@,
            rest@ == all.subrange(i, all.len() as int),
            links_spec(all.subrange(0, i)) == Some(pairs_view(out@)),
        decreases rest.len(),
    {
        let l = rest.remove(0);
        proof {
            assert(all.subrange(0, i + 1).drop_last() =~= all.subrange(0, i));
            assert(all.subrange(0, i + 1).last() == l);
            assert(rest@ =~= all.subrange(i + 1, all.len() as int));
        }
        match App::normalize_link(l) {
            Some(p) => {
                let ghost old_out = out@;
                out.push(p);
                assert(pairs_view(out@) =~= pairs_view(old_out).push((p.0@, p.1@)));
            },
            None => {
                proof {
                    assert(links_spec(all.subrange(0, i + 1)) is None);
                    lemma_links_none_stays(all, i + 1);
                    assert(links_spec(ls@) is None);
                }
                return None;
            },
        }
        proof {
            i = i + 1;
        }
    }
    assert(all.subrange(0, all.len() as int) =~= all);
    Some(out)
}

impl App {
    /// Builds the application `name` from its configuration: the source
    /// directory defaults to the home directory, the destination directory to
    /// `base_dir/name`, and both have their variables expanded.
    pub fn new(base_dir: &Path, name: &String, app: AppConfig, env: &Env) -> (r: Result<App, ConfigError>)
        ensures
            match r {
                Ok(a) => app_spec(base_dir@, name@, app, *env) == Ok::<AppView, ConfigFault>(a@),
                Err(e) => app_spec(base_dir@, name@, app, *env) == Err::<AppView, ConfigFault>(e@),
            },
    {
        let AppConfig { srcdir, dstdir, description, links } = app;
        let src = match srcdir {
            Some(s) => match to_path(s.as_str(), env) {
                Ok(p) => p,
                Err(e) => return Err(ConfigError::Path(e)),
            },
            None => env.home.copy(),
        };
        let tail = match dstdir {
            Some(d) => Path::parse(d.as_str()),
            None => Path::parse(name.as_str()),
        };
        let dst = match expand_env(&base_dir.join(&tail), env) {
            Ok(p) => p,
            Err(e) => return Err(ConfigError::Path(e)),
        };
        let pairs = match links {
            None => {
                let v: Vec<(String, String)> = Vec::new();
                assert(pairs_view(v@) =~= Seq::<(Seq<char>, Seq<char>)>::empty());
                v
            },
            Some(ls) => match normalize_links(ls) {
                Some(v) => v,
                None => return Err(ConfigError::InvalidLinkArity { app: name.clone() }),
            },
        };
        Ok(App { srcdir: src, dstdir: dst, description, links: pairs })
    }

    /// A link entry as a `(dst, src)` pair: one part is used for both, two
    /// parts are taken in order, any other count is refused.
    pub fn normalize_link(link: Vec<String>) -> (r: Option<(String, String)>)
        ensures
            match r {
                Some((a, b)) => normalize_spec(comps_view(link@)) == Some((a@, b@)),
                None => normalize_spec(comps_view(link@)) is None,
            },
    {
        if link.len() == 1 {
            Some((link[0].clone(), link[0].clone()))
        } else if link.len() == 2 {
            Some((link[0].clone(), link[1].clone()))
        } else {
            None
        }
    }
}

impl Apps {
    /// Builds the registry from the configured applications, in order; a
    /// name configured twice keeps its later entry only.
    pub fn new(base_dir: &Path, apps: Vec<(String, AppConfig)>, env: &Env) -> (r: Result<Apps, ConfigError>)
        ensures
            match r {
                Ok(a) => apps_spec(base_dir@, apps@, *env) == Ok::<Seq<(Seq<char>, AppView)>, ConfigFault>(a@),
                Err(e) => apps_spec(base_dir@, apps@, *env) == Err::<Seq<(Seq<char>, AppView)>, ConfigFault>(e@),
            },
    {
        let ghost all = apps@;
        let mut rest = apps;
        let mut out: Vec<(String, App)> = Vec::new();
        let ghost mut i: int = 0;
        assert(all.subrange(0, 0) =~= Seq::<(String, AppConfig)>::empty());
        assert(apps_view(out@) =~= Seq::<(Seq<char>, AppView)>::empty());
        while rest.len() > 0
            invariant
                0 <= i <= all.len(),
                all == apps@,
                rest@ == all.subrange(i, all.len() as int),
                apps_spec(base_dir@, all.subrange(0, i), *env) == Ok::<Seq<(Seq<char>, AppView)>, ConfigFault>(apps_view(out@)),
            decreases rest.len(),
        {
            let (name, cfg) = rest.remove(0);
            proof {
                assert(all.subrange(0, i + 1).drop_last() =~= all.subrange(0, i));
                assert(all.subrange(0, i + 1).last() == (name, cfg));
                assert(rest@ =~= all.subrange(i + 1, all.len() as int));
            }
            match App::new(base_dir, &name, cfg, env) {
                Ok(a) => {
                    out = drop_name(out, &name);
                    let ghost old_out = out@;
                    let ghost av = a@;
                    out.push((name, a));
                    assert(apps_view(out@) =~= apps_view(old_out).push((name@, av)));
                },
                Err(e) => {
                    proof {
                        assert(apps_spec(base_dir@, all.subrange(0, i + 1), *env) == Err::<Seq<(Seq<char>, AppView)>, ConfigFault>(e@));
                        lemma_apps_err_stays(base_dir@, all, i + 1, *env);
                    }
                    return Err(e);
                },
            }
            proof {
                i = i + 1;
            }
        }
        assert(all.subrange(0, all.len() as int) =~= all);
        Ok(Apps(out))
    }

    /// The destination directory of the application called `name`.
    pub fn dir(&self, name: &str) -> (r: Option<Path>)
        ensures
            opt_path_view(r) == app_dir(self.0@, name@),
    {
        let key = String::from_str(name);
        let mut found: Option<usize> = None;
        let mut i: usize = 0;
        while i < self.0.len()
            invariant
                i <= self.0.len(),
                key@ == name@,
                match found {
                    Some(j) => j < i && app_dir(self.0@.subrange(0, i as int), name@) == Some(
                        self.0@[j as int].1.dstdir@,
                    ),
                    None => app_dir(self.0@.subrange(0, i as int), name@) is None,
                },
            decreases self.0.len() - i,
        {
            assert(self.0@.subrange(0, i + 1).drop_last() =~= self.0@.subrange(0, i as int));
            if self.0[i].0 == key {
                found = Some(i);
            }
            i = i + 1;
        }
        assert(self.0@.subrange(0, self.0@.len() as int) =~= self.0@);
        match found {
            Some(j) => Some(self.0[j].1.dstdir.copy()),
            None => None,
        }
    }
}

/// The command-line arguments.
pub struct Cli {
    /// The dotfiles directory; the default is `.dotfiles` in the home directory.
    pub base_dir: Option<String>,
    /// The configuration file; the default is `peridot.toml` in the dotfiles directory.
    pub config_file: Option<String>,
    /// Whether to create the links that are ready to be made.
    pub link: bool,
    /// Only these applications, when given.
    pub include_apps: Option<Vec<String>>,
    /// Not these applications, when given.
    pub exclude_apps: Option<Vec<String>>,
}

/// The resolved configuration of one run.
pub struct Config {
    pub base_dir: Path,
    pub apps: Apps,
    pub link: bool,
}

pub open spec fn names_contain(names: Seq<String>, name: Seq<char>) -> bool {
    exists|i: int| 0 <= i < names.len() && #[trigger] names[i]@ == name
}

/// Whether an application passes the include and exclude lists: it must be in
/// the include list when there is one, and not in the exclude list.
pub open spec fn selected(incl: Option<Vec<String>>, excl: Option<Vec<String>>, name: Seq<char>) -> bool {
    (match incl {
        Some(v) => names_contain(v@, name),
        None => true,
    }) && (match excl {
        Some(v) => !names_contain(v@, name),
        None => true,
    })
}

/// The configured applications that pass the include and exclude lists, in order.
pub open spec fn select_spec(
    apps: Seq<(String, AppConfig)>,
    incl: Option<Vec<String>>,
    excl: Option<Vec<String>>,
) -> Seq<(String, AppConfig)> {
    apps.filter(|e: (String, AppConfig)| selected(incl, excl, e.0@))
}

pub open spec fn config_file_name() -> Seq<char> {
    seq!['p', 'e', 'r', 'i', 'd', 'o', 't', '.', 't', 'o', 'm', 'l']
}

pub open spec fn dotfiles_name() -> Seq<char> {
    seq!['.', 'd', 'o', 't', 'f', 'i', 'l', 'e', 's']
}

fn contains_name(names: &Vec<String>, name: &String) -> (r: bool)
    ensures
        r == names_contain(names@, name@),
{
    let mut i: usize = 0;
    while i < names.len()
        invariant
            i <= names.len(),
            forall|j: int| 0 <= j < i ==> names@[j]@ != name@,
        decreases names.len() - i,
    {
        if names[i] == *name {
            return true;
        }
        i = i + 1;
    }
    false
}

/// The configuration file in the dotfiles directory `base_dir`.
pub fn find_config(base_dir: &Path) -> (r: Path)
    ensures
        r@ == join_spec(base_dir@, parse_spec(config_file_name())),
{
    proof {
        reveal_strlit("peridot.toml");
    }
    let name = "peridot.toml";
    assert(name@ =~= config_file_name());
    base_dir.join(&Path::parse(name))
}

impl Config {
    /// The dotfiles directory used when none is given: `.dotfiles` in `home`.
    pub fn default_base_dir(home: &Path) -> (r: Path)
        ensures
            r@ == join_spec(home@, parse_spec(dotfiles_name())),
    {
        proof {
            reveal_strlit(".dotfiles");
        }
        let name = ".dotfiles";
        assert(name@ =~= dotfiles_name());
        home.join(&Path::parse(name))
    }

    /// Whether the application `name` passes the include and exclude lists.
    pub fn app_filter(incl: &Option<Vec<String>>, excl: &Option<Vec<String>>, name: &String) -> (r: bool)
        ensures
            r == selected(*incl, *excl, name@),
    {
        let included = match incl {
            Some(v) => contains_name(v, name),
            None => true,
        };
        let excluded = match excl {
            Some(v) => contains_name(v, name),
            None => false,
        };
        included && !excluded
    }

    /// The configured applications that pass the include and exclude lists, in order.
    pub fn select_apps(
        apps: Vec<(String, AppConfig)>,
        incl: &Option<Vec<String>>,
        excl: &Option<Vec<String>>,
    ) -> (r: Vec<(String, AppConfig)>)
        ensures
            r@ == select_spec(apps@, *incl, *excl),
    {
        let ghost all = apps@;
        let ghost pred = |e: (String, AppConfig)| selected(*incl, *excl, e.0@);
        let mut rest = apps;
        let mut out: Vec<(String, AppConfig)> = Vec::new();
        let ghost mut i: int = 0;
        assert(all.subrange(0, 0) =~= Seq::<(String, AppConfig)>::empty());
        while rest.len() > 0
            invariant
                0 <= i <= all.len(),
                all == apps@,
                pred == (|e: (String, AppConfig)| selected(*incl, *excl, e.0@)),
                rest@ == all.subrange(i, all.len() as int),
                out@ == all.subrange(0, i).filter(pred),
            decreases rest.len(),
        {
            let e = rest.remove(0);
            proof {
                assert(all.subrange(0, i + 1).drop_last() =~= all.subrange(0, i));
                assert(all.subrange(0, i + 1).last() == e);
                assert(rest@ =~= all.subrange(i + 1, all.len() as int));
            }
            let keep = Config::app_filter(incl, excl, &e.0);
            assert(keep == pred(e));
            let ghost old_out = out@;
            if keep {
                out.push(e);
            }
            proof {
                let next = all.subrange(0, i + 1);
                reveal(Seq::filter);
                assert(next.filter(pred) == (if pred(next.last()) {
                    next.drop_last().filter(pred).push(next.last())
                } else {
                    next.drop_last().filter(pred)
                }));
                i = i + 1;
            }
        }
        assert(all.subrange(0, all.len() as int) =~= all);
        out
    }

    /// The configuration of a run: the applications of `apps` that `args`
    /// selects, built under the dotfiles directory `base_dir`.
    pub fn new(args: Cli, base_dir: Path, apps: Vec<(String, AppConfig)>, env: &Env) -> (r: Result<Config, ConfigError>)
        ensures
            match r {
                Ok(c) => c.base_dir@ == base_dir@ && c.link == args.link && apps_spec(
                    base_dir@,
                    select_spec(apps@, args.include_apps, args.exclude_apps),
                    *env,
                ) == Ok::<Seq<(Seq<char>, AppView)>, ConfigFault>(c.apps@),
                Err(e) => apps_spec(
                    base_dir@,
                    select_spec(apps@, args.include_apps, args.exclude_apps),
                    *env,
                ) == Err::<Seq<(Seq<char>, AppView)>, ConfigFault>(e@),
            },
    {
        let chosen = Config::select_apps(apps, &args.include_apps, &args.exclude_apps);
        match Apps::new(&base_dir, chosen, env) {
            Ok(a) => Ok(Config { base_dir, apps: a, link: args.link }),
            Err(e) => Err(e),
        }
    }
}

} // verus!
