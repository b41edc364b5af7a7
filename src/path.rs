use vstd::prelude::*;
use vstd::string::*;

use crate::cli::{app_dir, App, Apps};

verus! {

/// The abstract value of a path: whether it is rooted, and its components.
pub type PathView = (bool, Seq<Seq<char>>);

pub open spec fn comps_view(v: Seq<String>) -> Seq<Seq<char>> {
    v.map_values(|c: String| c@)
}

/// Whether a component is kept by parsing: empty and `.` components are dropped.
pub open spec fn keep_comp(c: Seq<char>) -> bool {
    c.len() > 0 && c != seq!['.']
}

/// The text after the last `/` of `s`.
pub open spec fn open_seg(s: Seq<char>) -> Seq<char>
    decreases s.len(),
{
    if s.len() == 0 {
        seq![]
    } else if s.last() == '/' {
        seq![]
    } else {
        open_seg(s.drop_last()).push(s.last())
    }
}

/// The kept components of `s` that are followed by a `/`.
pub open spec fn closed_comps(s: Seq<char>) -> Seq<Seq<char>>
    decreases s.len(),
{
    if s.len() == 0 {
        seq![]
    } else if s.last() == '/' {
        let p = s.drop_last();
        if keep_comp(open_seg(p)) {
            closed_comps(p).push(open_seg(p))
        } else {
            closed_comps(p)
        }
    } else {
        closed_comps(s.drop_last())
    }
}

/// Whether `s` is a relative path whose first segment is `.`.
pub open spec fn leading_dot(s: Seq<char>) -> bool {
    s.len() > 0 && s[0] == '.' && (s.len() == 1 || s[1] == '/')
}

/// The text between slashes of `s` without empty and `.` segments.
pub open spec fn plain_comps(s: Seq<char>) -> Seq<Seq<char>> {
    if keep_comp(open_seg(s)) {
        closed_comps(s).push(open_seg(s))
    } else {
        closed_comps(s)
    }
}

/// The components of `s`: the text between slashes, without empty and `.`
/// ones, except that a leading `.` segment is kept.
pub open spec fn parse_comps(s: Seq<char>) -> Seq<Seq<char>> {
    if leading_dot(s) {
        seq![seq!['.']] + plain_comps(s)
    } else {
        plain_comps(s)
    }
}

/// A path is valid when `.` stands at most as the first component of a
/// relative path.
pub open spec fn valid_view(p: PathView) -> bool {
    forall|j: int| 0 <= j < p.1.len() && #[trigger] p.1[j] == seq!['.'] ==> j == 0 && !p.0
}

/// `c` without a leading `.` component.
pub open spec fn drop_dot(c: Seq<Seq<char>>) -> Seq<Seq<char>> {
    if c.len() > 0 && c[0] == seq!['.'] {
        c.drop_first()
    } else {
        c
    }
}

pub open spec fn parse_spec(s: Seq<char>) -> PathView {
    (s.len() > 0 && s[0] == '/', parse_comps(s))
}

/// Components separated by `/`.
pub open spec fn join_comps(c: Seq<Seq<char>>) -> Seq<char>
    decreases c.len(),
{
    if c.len() == 0 {
        seq![]
    } else if c.len() == 1 {
        c[0]
    } else {
        join_comps(c.drop_last()) + seq!['/'] + c.last()
    }
}

pub open spec fn render_spec(p: PathView) -> Seq<char> {
    if p.0 {
        seq!['/'] + join_comps(p.1)
    } else {
        join_comps(p.1)
    }
}

/// Appending `b` to `a`: a rooted `b` replaces `a`, an empty relative `a`
/// gives `b`, and otherwise a leading `.` of `b` is dropped.
pub open spec fn join_spec(a: PathView, b: PathView) -> PathView {
    if b.0 {
        b
    } else if !a.0 && a.1.len() == 0 {
        b
    } else {
        (a.0, a.1 + drop_dot(b.1))
    }
}

pub open spec fn opt_path_view(o: Option<Path>) -> Option<PathView> {
    match o {
        Some(p) => Some(p@),
        None => None,
    }
}

pub open spec fn opt_str_view(o: Option<String>) -> Option<Seq<char>> {
    match o {
        Some(s) => Some(s@),
        None => None,
    }
}

/// A filesystem path as a sequence of components.
pub struct Path {
    pub absolute: bool,
    pub comps: Vec<String>,
}

impl View for Path {
    type V = PathView;

    open spec fn view(&self) -> PathView {
        (self.absolute, comps_view(self.comps@))
    }
}

pub fn is_kept(c: &str) -> (r: bool)
    ensures
        r == keep_comp(c@),
{
    let n = c.unicode_len();
    if n == 0 {
        false
    } else if n == 1 && c.get_char(0) == '.' {
        assert(c@ =~= seq!['.']);
        false
    } else {
        true
    }
}

fn copy_comps(v: &Vec<String>) -> (r: Vec<String>)
    ensures
        comps_view(r@) == comps_view(v@),
{
    let mut r: Vec<String> = Vec::new();
    let mut i: usize = 0;
    while i < v.len()
        invariant
            i <= v.len(),
            comps_view(r@) =~= comps_view(v@.subrange(0, i as int)),
        decreases v.len() - i,
    {
        let ghost old_r = r@;
        r.push(v[i].clone());
        proof {
            assert(v@.subrange(0, i + 1) =~= v@.subrange(0, i as int).push(v@[i as int]));
            assert(comps_view(r@) =~= comps_view(old_r).push(v@[i as int]@));
        }
        i = i + 1;
    }
    assert(v@.subrange(0, v@.len() as int) =~= v@);
    r
}

impl Path {
    /// Splits `s` into components; it is rooted when it starts with `/`.
    pub fn parse(s: &str) -> (r: Path)
        ensures
            r@ == parse_spec(s@),
    {
        let n = s.unicode_len();
        let mut comps: Vec<String> = Vec::new();
        let mut start: usize = 0;
        let mut i: usize = 0;
        while i < n
            invariant
                n == s@.len(),
                start <= i <= n,
                comps_view(comps@) == closed_comps(s@.subrange(0, i as int)),
                open_seg(s@.subrange(0, i as int)) == s@.subrange(start as int, i as int),
            decreases n - i,
        {
            let c = s.get_char(i);
            let ghost pre = s@.subrange(0, i + 1);
            proof {
                assert(pre.drop_last() =~= s@.subrange(0, i as int));
                assert(pre.last() == c);
            }
            if c == '/' {
                let seg = s.substring_char(start, i);
                if is_kept(seg) {
                    let ghost old_comps = comps@;
                    comps.push(String::from_str(seg));
                    assert(comps_view(comps@) =~= comps_view(old_comps).push(seg@));
                }
                start = i + 1;
                assert(open_seg(pre) =~= s@.subrange(start as int, i + 1));
            } else {
                assert(s@.subrange(start as int, i + 1) =~= s@.subrange(start as int, i as int).push(c));
            }
            i = i + 1;
        }
        let seg = s.substring_char(start, n);
        assert(s@.subrange(0, n as int) =~= s@);
        if is_kept(seg) {
            let ghost old_comps = comps@;
            comps.push(String::from_str(seg));
            assert(comps_view(comps@) =~= comps_view(old_comps).push(seg@));
        }
        let absolute = n > 0 && s.get_char(0) == '/';
        let dot_first = n > 0 && s.get_char(0) == '.' && (n == 1 || s.get_char(1) == '/');
        assert(dot_first == leading_dot(s@));
        if dot_first {
            let ghost old_comps = comps@;
            proof {
                reveal_strlit(".");
            }
            let d = String::from_str(".");
            assert(d@ =~= seq!['.']);
            comps.insert(0, d);
            proof {
                assert(comps_view(comps@) =~= seq![seq!['.']] + comps_view(old_comps));
            }
        }
        Path { absolute, comps }
    }

    /// The path as text: components separated by `/`, with a leading `/` when rooted.
    pub fn render(&self) -> (r: String)
        ensures
            r@ == render_spec(self@),
    {
        proof {
            reveal_strlit("/");
        }
        let mut r = String::new();
        if self.absolute {
            r.append("/");
        }
        let ghost lead = r@;
        let mut i: usize = 0;
        while i < self.comps.len()
            invariant
                i <= self.comps.len(),
                r@ == lead + join_comps(comps_view(self.comps@.subrange(0, i as int))),
            decreases self.comps.len() - i,
        {
            let ghost before = comps_view(self.comps@.subrange(0, i as int));
            let ghost after = comps_view(self.comps@.subrange(0, i + 1));
            assert(after.drop_last() =~= before);
            assert(after.len() == i + 1);
            assert(after.last() == self.comps@[i as int]@);
            let ghost r_before = r@;
            proof {
                reveal_strlit("/");
            }
            if i > 0 {
                r.append("/");
            }
            r.append(self.comps[i].as_str());
            proof {
                if i > 0 {
                    assert(r@ =~= r_before + seq!['/'] + self.comps@[i as int]@);
                    assert(join_comps(after) == join_comps(before) + seq!['/'] + after.last());
                } else {
                    assert(after =~= seq![self.comps@[0]@]);
                }
                assert(r@ =~= lead + join_comps(after));
            }
            i = i + 1;
        }
        assert(self.comps@.subrange(0, self.comps@.len() as int) =~= self.comps@);
        proof {
            if self.absolute {
                assert(lead =~= seq!['/']);
            } else {
                assert(lead =~= Seq::<char>::empty());
                assert(r@ =~= join_comps(self@.1));
            }
        }
        r
    }

    /// A copy of the path.
    pub fn copy(&self) -> (r: Path)
        ensures
            r@ == self@,
    {
        Path { absolute: self.absolute, comps: copy_comps(&self.comps) }
    }

    /// `other` appended to this path: a rooted `other` replaces it, an empty
    /// relative path gives `other`, and otherwise a leading `.` of `other` is dropped.
    pub fn join(&self, other: &Path) -> (r: Path)
        ensures
            r@ == join_spec(self@, other@),
    {
        if other.absolute || (!self.absolute && self.comps.len() == 0) {
            proof {
                if !other.absolute {
                    assert(comps_view(self.comps@).len() == 0);
                }
            }
            other.copy()
        } else {
            let first: usize = if other.comps.len() > 0 && other.comps[0].as_str().unicode_len() == 1
                && other.comps[0].as_str().get_char(0) == '.' {
                assert(other.comps@[0]@ =~= seq!['.']);
                1
            } else {
                proof {
                    if other.comps@.len() > 0 && other.comps@[0]@ == seq!['.'] {
                        assert(other.comps@[0]@.len() == 1);
                    }
                }
                0
            };
            let ghost ov = comps_view(other.comps@);
            assert(drop_dot(ov) =~= ov.subrange(first as int, ov.len() as int));
            let mut comps = copy_comps(&self.comps);
            let mut i: usize = first;
            let ghost base = comps_view(comps@);
            while i < other.comps.len()
                invariant
                    first <= i <= other.comps.len(),
                    base == comps_view(self.comps@),
                    ov == comps_view(other.comps@),
                    comps_view(comps@) =~= base + ov.subrange(first as int, i as int),
                decreases other.comps.len() - i,
            {
                let ghost old_c = comps@;
                comps.push(other.comps[i].clone());
                proof {
                    assert(comps_view(comps@) =~= comps_view(old_c).push(other.comps@[i as int]@));
                    assert(ov.subrange(first as int, i + 1) =~= ov.subrange(first as int, i as int).push(ov[i as int]));
                }
                i = i + 1;
            }
            Path { absolute: self.absolute, comps }
        }
    }

    /// Whether the two paths have the same root and components.
    pub fn same(&self, other: &Path) -> (r: bool)
        ensures
            r == (self@ == other@),
    {
        if self.absolute != other.absolute || self.comps.len() != other.comps.len() {
            proof {
                if self.comps.len() != other.comps.len() {
                    assert(comps_view(self.comps@).len() != comps_view(other.comps@).len());
                }
            }
            return false;
        }
        let mut i: usize = 0;
        while i < self.comps.len()
            invariant
                i <= self.comps.len() == other.comps.len(),
                forall|j: int| 0 <= j < i ==> self.comps@[j]@ == other.comps@[j]@,
            decreases self.comps.len() - i,
        {
            if self.comps[i] != other.comps[i] {
                assert(comps_view(self.comps@)[i as int] != comps_view(other.comps@)[i as int]);
                return false;
            }
            i = i + 1;
        }
        assert(comps_view(self.comps@) =~= comps_view(other.comps@));
        true
    }
}

/// What can go wrong while resolving a path.
pub enum PathError {
    /// A `$NAME` component named a variable that is not set.
    InvalidEnvVar { path: String, env: String },
    /// An `@name` component named an application that is not registered.
    NoSuchApp { name: String },
    /// A link location without a parent directory.
    NoParent(String),
    /// A filesystem operation failed, with its message.
    IoError(String),
}

/// The abstract value of a `PathError`.
pub enum PathFault {
    InvalidEnvVar(Seq<char>, Seq<char>),
    NoSuchApp(Seq<char>),
    NoParent(Seq<char>),
    IoError(Seq<char>),
}

impl View for PathError {
    type V = PathFault;

    open spec fn view(&self) -> PathFault {
        match self {
            PathError::InvalidEnvVar { path, env } => PathFault::InvalidEnvVar(path@, env@),
            PathError::NoSuchApp { name } => PathFault::NoSuchApp(name@),
            PathError::NoParent(p) => PathFault::NoParent(p@),
            PathError::IoError(m) => PathFault::IoError(m@),
        }
    }
}

/// The text that describes an error.
pub open spec fn fault_message(f: PathFault) -> Seq<char> {
    match f {
        PathFault::InvalidEnvVar(path, env) => "Could not find environment variable "@ + env + " in "@ + path,
        PathFault::NoSuchApp(name) => "No application named "@ + name,
        PathFault::NoParent(path) => path + " must have a parent directory"@,
        PathFault::IoError(m) => m,
    }
}

impl PathError {
    /// A sentence that describes the error.
    pub fn message(&self) -> (r: String)
        ensures
            r@ == fault_message(self@),
    {
        match self {
            PathError::InvalidEnvVar { path, env } => {
                let mut r = String::from_str("Could not find environment variable ");
                r.append(env.as_str());
                r.append(" in ");
                r.append(path.as_str());
                r
            },
            PathError::NoSuchApp { name } => {
                let mut r = String::from_str("No application named ");
                r.append(name.as_str());
                r
            },
            PathError::NoParent(path) => {
                let mut r = path.clone();
                r.append(" must have a parent directory");
                r
            },
            PathError::IoError(m) => m.clone(),
        }
    }
}

/// The environment that paths are expanded in.
pub struct Env {
    /// The home directory.
    pub home: Path,
    /// Variables and their values; a later binding wins.
    pub vars: Vec<(String, String)>,
}

/// The value bound to `name`; a later binding wins.
pub open spec fn lookup_var(vars: Seq<(String, String)>, name: Seq<char>) -> Option<Seq<char>>
    decreases vars.len(),
{
    if vars.len() == 0 {
        None
    } else if vars.last().0@ == name {
        Some(vars.last().1@)
    } else {
        lookup_var(vars.drop_last(), name)
    }
}

impl Env {
    /// The value of the variable `name`.
    pub fn var(&self, name: &str) -> (r: Option<String>)
        ensures
            opt_str_view(r) == lookup_var(self.vars@, name@),
    {
        let key = String::from_str(name);
        let mut found: Option<usize> = None;
        let mut i: usize = 0;
        while i < self.vars.len()
            invariant
                i <= self.vars.len(),
                key@ == name@,
                match found {
                    Some(j) => j < i && lookup_var(self.vars@.subrange(0, i as int), name@) == Some(
                        self.vars@[j as int].1@,
                    ),
                    None => lookup_var(self.vars@.subrange(0, i as int), name@) is None,
                },
            decreases self.vars.len() - i,
        {
            assert(self.vars@.subrange(0, i + 1).drop_last() =~= self.vars@.subrange(0, i as int));
            if self.vars[i].0 == key {
                found = Some(i);
            }
            i = i + 1;
        }
        assert(self.vars@.subrange(0, self.vars@.len() as int) =~= self.vars@);
        match found {
            Some(j) => Some(self.vars[j].1.clone()),
            None => None,
        }
    }
}

/// Expands the components one after another from `start`; the first failing
/// component ends the walk with its error.
pub open spec fn fold_steps(
    start: PathView,
    comps: Seq<Seq<char>>,
    step: spec_fn(PathView, Seq<char>) -> Result<PathView, Seq<char>>,
) -> Result<PathView, Seq<char>>
    decreases comps.len(),
{
    if comps.len() == 0 {
        Ok(start)
    } else {
        match fold_steps(start, comps.drop_last(), step) {
            Ok(acc) => step(acc, comps.last()),
            Err(e) => Err(e),
        }
    }
}

/// Whether a component refers to something by name after the sign `sign`.
pub open spec fn is_ref(comp: Seq<char>, sign: char) -> bool {
    comp.len() > 0 && comp[0] == sign
}

/// A `$NAME` component becomes the value of `NAME`; other components stay.
pub open spec fn env_step(vars: Seq<(String, String)>, acc: PathView, comp: Seq<char>) -> Result<PathView, Seq<char>> {
    if is_ref(comp, '$') {
        match lookup_var(vars, comp.drop_first()) {
            Some(v) => Ok(join_spec(acc, parse_spec(v))),
            None => Err(comp),
        }
    } else {
        Ok(join_spec(acc, (false, seq![comp])))
    }
}

/// An `@name` component becomes the destination directory of application `name`.
pub open spec fn app_step(apps: Seq<(String, App)>, acc: PathView, comp: Seq<char>) -> Result<PathView, Seq<char>> {
    if is_ref(comp, '@') {
        match app_dir(apps, comp.drop_first()) {
            Some(d) => Ok(join_spec(acc, d)),
            None => Err(comp.drop_first()),
        }
    } else {
        Ok(join_spec(acc, (false, seq![comp])))
    }
}

pub open spec fn env_stepper(vars: Seq<(String, String)>) -> spec_fn(PathView, Seq<char>) -> Result<PathView, Seq<char>> {
    |acc: PathView, c: Seq<char>| env_step(vars, acc, c)
}

pub open spec fn app_stepper(apps: Seq<(String, App)>) -> spec_fn(PathView, Seq<char>) -> Result<PathView, Seq<char>> {
    |acc: PathView, c: Seq<char>| app_step(apps, acc, c)
}

/// `p` with its `$NAME` components expanded, or the first component whose variable is unset.
pub open spec fn expand_env_spec(p: PathView, vars: Seq<(String, String)>) -> Result<PathView, Seq<char>> {
    fold_steps((p.0, seq![]), p.1, env_stepper(vars))
}

/// `p` with its `@name` components expanded, or the first name that is not registered.
pub open spec fn expand_app_spec(p: PathView, apps: Seq<(String, App)>) -> Result<PathView, Seq<char>> {
    fold_steps((p.0, seq![]), p.1, app_stepper(apps))
}

/// Once a walk has failed on a prefix, the whole walk fails the same way.
pub proof fn lemma_fold_err_stays(
    start: PathView,
    comps: Seq<Seq<char>>,
    k: int,
    step: spec_fn(PathView, Seq<char>) -> Result<PathView, Seq<char>>,
)
    requires
        0 <= k <= comps.len(),
        fold_steps(start, comps.subrange(0, k), step) is Err,
    ensures
        fold_steps(start, comps, step) == fold_steps(start, comps.subrange(0, k), step),
    decreases comps.len(),
{
    if comps.len() > k {
        assert(comps.drop_last().subrange(0, k) =~= comps.subrange(0, k));
        lemma_fold_err_stays(start, comps.drop_last(), k, step);
    } else {
        assert(comps.subrange(0, k) =~= comps);
    }
}

/// A walk over `a + b` is the walk over `a` followed by the walk over `b`.
pub proof fn lemma_fold_concat(
    start: PathView,
    a: Seq<Seq<char>>,
    b: Seq<Seq<char>>,
    step: spec_fn(PathView, Seq<char>) -> Result<PathView, Seq<char>>,
)
    ensures
        fold_steps(start, a + b, step) == match fold_steps(start, a, step) {
            Ok(m) => fold_steps(m, b, step),
            Err(e) => Err(e),
        },
    decreases b.len(),
{
    if b.len() == 0 {
        assert(a + b =~= a);
    } else {
        assert((a + b).drop_last() =~= a + b.drop_last());
        lemma_fold_concat(start, a, b.drop_last(), step);
    }
}

/// Whether `comps` may follow `start`: a `.` only as the first component
/// after an empty relative path.
pub open spec fn dots_fit(start: PathView, comps: Seq<Seq<char>>) -> bool {
    forall|j: int| 0 <= j < comps.len() && #[trigger] comps[j] == seq!['.'] ==> j == 0 && start == (
        false,
        Seq::<Seq<char>>::empty(),
    )
}

/// Components that hold no `$NAME` reference are kept as they are.
pub proof fn lemma_env_plain(start: PathView, comps: Seq<Seq<char>>, vars: Seq<(String, String)>)
    requires
        forall|j: int| 0 <= j < comps.len() ==> !is_ref(#[trigger] comps[j], '$'),
        dots_fit(start, comps),
    ensures
        fold_steps(start, comps, env_stepper(vars)) == Ok::<PathView, Seq<char>>((start.0, start.1 + comps)),
    decreases comps.len(),
{
    if comps.len() == 0 {
        assert(start.1 + comps =~= start.1);
    } else {
        let c = comps.last();
        assert(dots_fit(start, comps.drop_last()));
        lemma_env_plain(start, comps.drop_last(), vars);
        assert(!is_ref(comps[comps.len() - 1], '$'));
        assert(start.1 + comps.drop_last() + seq![c] =~= start.1 + comps);
        if c == seq!['.'] {
            assert(comps.len() == 1);
            assert(start.1 + comps.drop_last() =~= Seq::<Seq<char>>::empty());
        } else {
            assert(drop_dot(seq![c]) =~= seq![c]);
        }
    }
}

/// Expanding a path whose component `k` is `$NAME`, where `NAME` is set to
/// a single plain component and no other component refers to a variable,
/// gives the same path with that component replaced by the value.
pub proof fn lemma_env_var_replaced(p: PathView, k: int, vars: Seq<(String, String)>, value: Seq<char>)
    requires
        valid_view(p),
        keep_comp(value),
        0 <= k < p.1.len(),
        is_ref(p.1[k], '$'),
        lookup_var(vars, p.1[k].drop_first()) == Some(value),
        parse_spec(value) == (false, seq![value]),
        forall|j: int| 0 <= j < p.1.len() && j != k ==> !is_ref(#[trigger] p.1[j], '$'),
    ensures
        expand_env_spec(p, vars) == Ok::<PathView, Seq<char>>((p.0, p.1.update(k, value))),
{
    let step = env_stepper(vars);
    let pre = p.1.subrange(0, k);
    let mid = p.1.subrange(0, k + 1);
    let post = p.1.subrange(k + 1, p.1.len() as int);
    let start: PathView = (p.0, seq![]);
    assert forall|j: int| 0 <= j < pre.len() implies !is_ref(#[trigger] pre[j], '$') by {
        assert(pre[j] == p.1[j]);
    }
    assert forall|j: int| 0 <= j < post.len() implies !is_ref(#[trigger] post[j], '$') by {
        assert(post[j] == p.1[k + 1 + j]);
    }
    assert forall|j: int| 0 <= j < pre.len() && #[trigger] pre[j] == seq!['.'] implies j == 0 && start == (
        false,
        Seq::<Seq<char>>::empty(),
    ) by {
        assert(pre[j] == p.1[j]);
    }
    assert forall|j: int| 0 <= j < post.len() && #[trigger] post[j] == seq!['.'] implies j == 0 && (
        p.0,
        pre.push(value),
    ) == (false, Seq::<Seq<char>>::empty()) by {
        assert(post[j] == p.1[k + 1 + j]);
    }
    lemma_env_plain(start, pre, vars);
    assert(mid.drop_last() =~= pre);
    assert(mid.last() == p.1[k]);
    assert(seq![] + pre =~= pre);
    assert(pre + seq![value] =~= pre.push(value));
    assert(drop_dot(seq![value]) =~= seq![value]);
    assert(step((p.0, pre), p.1[k]) == env_step(vars, (p.0, pre), p.1[k]));
    assert(fold_steps(start, mid, step) == Ok::<PathView, Seq<char>>((p.0, pre.push(value))));
    lemma_env_plain((p.0, pre.push(value)), post, vars);
    assert(mid + post =~= p.1);
    lemma_fold_concat(start, mid, post, step);
    assert(pre.push(value) + post =~= p.1.update(k, value));
}

/// Expanding a path whose component `k` is `$NAME` with `NAME` unset fails on
/// that component when no earlier component refers to a variable.
pub proof fn lemma_env_var_unset(p: PathView, k: int, vars: Seq<(String, String)>)
    requires
        valid_view(p),
        0 <= k < p.1.len(),
        is_ref(p.1[k], '$'),
        lookup_var(vars, p.1[k].drop_first()) is None,
        forall|j: int| 0 <= j < k ==> !is_ref(#[trigger] p.1[j], '$'),
    ensures
        expand_env_spec(p, vars) == Err::<PathView, Seq<char>>(p.1[k]),
{
    let step = env_stepper(vars);
    let pre = p.1.subrange(0, k);
    let start: PathView = (p.0, seq![]);
    assert forall|j: int| 0 <= j < pre.len() implies !is_ref(#[trigger] pre[j], '$') by {
        assert(pre[j] == p.1[j]);
    }
    assert forall|j: int| 0 <= j < pre.len() && #[trigger] pre[j] == seq!['.'] implies j == 0 && start == (
        false,
        Seq::<Seq<char>>::empty(),
    ) by {
        assert(pre[j] == p.1[j]);
    }
    lemma_env_plain(start, pre, vars);
    assert(p.1.subrange(0, k + 1).drop_last() =~= pre);
    lemma_fold_err_stays(start, p.1, k + 1, step);
}

/// Components that hold no `@name` reference are kept as they are.
pub proof fn lemma_app_plain(start: PathView, comps: Seq<Seq<char>>, apps: Seq<(String, App)>)
    requires
        forall|j: int| 0 <= j < comps.len() ==> !is_ref(#[trigger] comps[j], '@'),
        dots_fit(start, comps),
    ensures
        fold_steps(start, comps, app_stepper(apps)) == Ok::<PathView, Seq<char>>((start.0, start.1 + comps)),
    decreases comps.len(),
{
    if comps.len() == 0 {
        assert(start.1 + comps =~= start.1);
    } else {
        let c = comps.last();
        assert(dots_fit(start, comps.drop_last()));
        lemma_app_plain(start, comps.drop_last(), apps);
        assert(!is_ref(comps[comps.len() - 1], '@'));
        assert(start.1 + comps.drop_last() + seq![c] =~= start.1 + comps);
        if c == seq!['.'] {
            assert(comps.len() == 1);
            assert(start.1 + comps.drop_last() =~= Seq::<Seq<char>>::empty());
        } else {
            assert(drop_dot(seq![c]) =~= seq![c]);
        }
    }
}

/// Expanding a path whose component `k` is `@name`, with no application
/// registered as `name`, fails naming it when no earlier component is an
/// application reference.
pub proof fn lemma_app_missing(p: PathView, k: int, apps: Seq<(String, App)>)
    requires
        valid_view(p),
        0 <= k < p.1.len(),
        is_ref(p.1[k], '@'),
        app_dir(apps, p.1[k].drop_first()) is None,
        forall|j: int| 0 <= j < k ==> !is_ref(#[trigger] p.1[j], '@'),
    ensures
        expand_app_spec(p, apps) == Err::<PathView, Seq<char>>(p.1[k].drop_first()),
{
    let step = app_stepper(apps);
    let pre = p.1.subrange(0, k);
    let start: PathView = (p.0, seq![]);
    assert forall|j: int| 0 <= j < pre.len() implies !is_ref(#[trigger] pre[j], '@') by {
        assert(pre[j] == p.1[j]);
    }
    assert forall|j: int| 0 <= j < pre.len() && #[trigger] pre[j] == seq!['.'] implies j == 0 && start == (
        false,
        Seq::<Seq<char>>::empty(),
    ) by {
        assert(pre[j] == p.1[j]);
    }
    lemma_app_plain(start, pre, apps);
    assert(p.1.subrange(0, k + 1).drop_last() =~= pre);
    lemma_fold_err_stays(start, p.1, k + 1, step);
}

/// Expanding a path whose component `k` is `@name`, where `name` is registered
/// with a rooted directory `d` and no other component is an application
/// reference, gives `d` followed by the components after `k`.
pub proof fn lemma_app_found(p: PathView, k: int, apps: Seq<(String, App)>, d: PathView)
    requires
        valid_view(p),
        0 <= k < p.1.len(),
        is_ref(p.1[k], '@'),
        app_dir(apps, p.1[k].drop_first()) == Some(d),
        d.0,
        forall|j: int| 0 <= j < p.1.len() && j != k ==> !is_ref(#[trigger] p.1[j], '@'),
    ensures
        expand_app_spec(p, apps) == Ok::<PathView, Seq<char>>(
            (true, d.1 + p.1.subrange(k + 1, p.1.len() as int)),
        ),
{
    let step = app_stepper(apps);
    let pre = p.1.subrange(0, k);
    let mid = p.1.subrange(0, k + 1);
    let post = p.1.subrange(k + 1, p.1.len() as int);
    let start: PathView = (p.0, seq![]);
    assert forall|j: int| 0 <= j < pre.len() implies !is_ref(#[trigger] pre[j], '@') by {
        assert(pre[j] == p.1[j]);
    }
    assert forall|j: int| 0 <= j < post.len() implies !is_ref(#[trigger] post[j], '@') by {
        assert(post[j] == p.1[k + 1 + j]);
    }
    assert forall|j: int| 0 <= j < pre.len() && #[trigger] pre[j] == seq!['.'] implies j == 0 && start == (
        false,
        Seq::<Seq<char>>::empty(),
    ) by {
        assert(pre[j] == p.1[j]);
    }
    assert forall|j: int| 0 <= j < post.len() && #[trigger] post[j] == seq!['.'] implies j == 0 && d == (
        false,
        Seq::<Seq<char>>::empty(),
    ) by {
        assert(post[j] == p.1[k + 1 + j]);
    }
    lemma_app_plain(start, pre, apps);
    assert(mid.drop_last() =~= pre);
    assert(mid.last() == p.1[k]);
    assert(seq![] + pre =~= pre);
    assert(step((p.0, pre), p.1[k]) == app_step(apps, (p.0, pre), p.1[k]));
    assert(fold_steps(start, mid, step) == Ok::<PathView, Seq<char>>(d));
    lemma_app_plain(d, post, apps);
    assert(mid + post =~= p.1);
    lemma_fold_concat(start, mid, post, step);
}

proof fn lemma_closed_kept(s: Seq<char>)
    ensures
        forall|j: int| 0 <= j < closed_comps(s).len() ==> keep_comp(#[trigger] closed_comps(s)[j]),
    decreases s.len(),
{
    if s.len() > 0 {
        let p = s.drop_last();
        lemma_closed_kept(p);
        if s.last() == '/' && keep_comp(open_seg(p)) {
            let c = closed_comps(s);
            assert(c == closed_comps(p).push(open_seg(p)));
            assert forall|j: int| 0 <= j < c.len() implies keep_comp(#[trigger] c[j]) by {
                if j < closed_comps(p).len() {
                    assert(c[j] == closed_comps(p)[j]);
                }
            }
        }
    }
}

/// A parsed path is valid.
pub proof fn lemma_parse_valid(s: Seq<char>)
    ensures
        valid_view(parse_spec(s)),
{
    lemma_closed_kept(s);
    let pc = plain_comps(s);
    assert forall|j: int| 0 <= j < pc.len() implies keep_comp(#[trigger] pc[j]) by {
        if j < closed_comps(s).len() {
            assert(pc[j] == closed_comps(s)[j]);
        }
    }
    let p = parse_spec(s);
    assert forall|j: int| 0 <= j < p.1.len() && #[trigger] p.1[j] == seq!['.'] implies j == 0 && !p.0 by {
        if leading_dot(s) {
            if j > 0 {
                assert(p.1[j] == pc[j - 1]);
            }
        } else {
            assert(p.1[j] == pc[j]);
        }
    }
}

/// Joining two valid paths gives a valid path.
pub proof fn lemma_join_valid(a: PathView, b: PathView)
    requires
        valid_view(a),
        valid_view(b),
    ensures
        valid_view(join_spec(a, b)),
{
    if !b.0 && !(!a.0 && a.1.len() == 0) {
        let db = drop_dot(b.1);
        assert forall|j: int| 0 <= j < db.len() implies #[trigger] db[j] != seq!['.'] by {
            if b.1.len() > 0 && b.1[0] == seq!['.'] {
                assert(db[j] == b.1[j + 1]);
            } else {
                assert(db[j] == b.1[j]);
            }
        }
        let r = join_spec(a, b);
        assert forall|j: int| 0 <= j < r.1.len() && #[trigger] r.1[j] == seq!['.'] implies j == 0 && !r.0 by {
            if j < a.1.len() {
                assert(r.1[j] == a.1[j]);
            } else {
                assert(r.1[j] == db[j - a.1.len()]);
            }
        }
    }
}

/// Expanding the variables of a valid path gives a valid path.
pub proof fn lemma_env_fold_valid(start: PathView, comps: Seq<Seq<char>>, vars: Seq<(String, String)>)
    requires
        valid_view(start),
    ensures
        fold_steps(start, comps, env_stepper(vars)) matches Ok(r) ==> valid_view(r),
    decreases comps.len(),
{
    if comps.len() > 0 {
        lemma_env_fold_valid(start, comps.drop_last(), vars);
        if let Ok(acc) = fold_steps(start, comps.drop_last(), env_stepper(vars)) {
            let c = comps.last();
            if is_ref(c, '$') {
                if let Some(v) = lookup_var(vars, c.drop_first()) {
                    lemma_parse_valid(v);
                    lemma_join_valid(acc, parse_spec(v));
                }
            } else {
                lemma_join_valid(acc, (false, seq![c]));
            }
        }
    }
}

/// The path written as `text`, once its variables are expanded, is valid.
pub proof fn lemma_to_path_valid(text: Seq<char>, vars: Seq<(String, String)>)
    ensures
        to_path_spec(text, vars) matches Ok(r) ==> valid_view(r),
{
    lemma_env_fold_valid((parse_spec(text).0, seq![]), parse_spec(text).1, vars);
}

fn ref_name(comp: &String, sign: char) -> (r: Option<&str>)
    ensures
        is_ref(comp@, sign) <==> r is Some,
        r matches Some(n) ==> n@ == comp@.drop_first(),
{
    let s = comp.as_str();
    let n = s.unicode_len();
    if n > 0 && s.get_char(0) == sign {
        let name = s.substring_char(1, n);
        assert(name@ =~= comp@.drop_first());
        Some(name)
    } else {
        None
    }
}

fn literal(comp: &String) -> (r: Path)
    ensures
        r@ == (false, seq![comp@]),
{
    let mut comps: Vec<String> = Vec::new();
    comps.push(comp.clone());
    let r = Path { absolute: false, comps };
    assert(r@.1 =~= seq![comp@]);
    r
}

/// Replaces each `$NAME` component of `path` by the value of the variable `NAME`.
pub fn expand_env(path: &Path, env: &Env) -> (r: Result<Path, PathError>)
    ensures
        match (r, expand_env_spec(path@, env.vars@)) {
            (Ok(p), Ok(v)) => p@ == v,
            (Err(PathError::InvalidEnvVar { path: ep, env: ev }), Err(c)) => ep@ == render_spec(path@)
                && ev@ == c,
            _ => false,
        },
{
    let ghost step = env_stepper(env.vars@);
    let mut acc = Path { absolute: path.absolute, comps: Vec::new() };
    assert(acc@.1 =~= Seq::<Seq<char>>::empty());
    let mut i: usize = 0;
    while i < path.comps.len()
        invariant
            i <= path.comps.len(),
            step == env_stepper(env.vars@),
            fold_steps((path@.0, seq![]), path@.1.subrange(0, i as int), step) == Ok::<PathView, Seq<char>>(acc@),
        decreases path.comps.len() - i,
    {
        let comp = &path.comps[i];
        assert(path@.1.subrange(0, i + 1).drop_last() =~= path@.1.subrange(0, i as int));
        assert(path@.1.subrange(0, i + 1).last() == comp@);
        match ref_name(comp, '$') {
            Some(name) => match env.var(name) {
                Some(v) => {
                    acc = acc.join(&Path::parse(v.as_str()));
                },
                None => {
                    proof {
                        lemma_fold_err_stays((path@.0, seq![]), path@.1, i + 1, step);
                    }
                    return Err(PathError::InvalidEnvVar { path: path.render(), env: comp.clone() });
                },
            },
            None => {
                acc = acc.join(&literal(comp));
            },
        }
        i = i + 1;
    }
    assert(path@.1.subrange(0, path@.1.len() as int) =~= path@.1);
    Ok(acc)
}

/// The path written as `text` with its variables expanded; an error names
/// the text as given and the first component whose variable is unset.
pub open spec fn to_path_spec(text: Seq<char>, vars: Seq<(String, String)>) -> Result<PathView, PathFault> {
    match expand_env_spec(parse_spec(text), vars) {
        Ok(v) => Ok(v),
        Err(c) => Err(PathFault::InvalidEnvVar(text, c)),
    }
}

/// The path written as `path`, with each `$NAME` component replaced by the
/// value of the variable `NAME`.
pub fn to_path(path: &str, env: &Env) -> (r: Result<Path, PathError>)
    ensures
        match r {
            Ok(p) => to_path_spec(path@, env.vars@) == Ok::<PathView, PathFault>(p@),
            Err(e) => to_path_spec(path@, env.vars@) == Err::<PathView, PathFault>(e@),
        },
{
    match expand_env(&Path::parse(path), env) {
        Ok(p) => Ok(p),
        Err(PathError::InvalidEnvVar { env: var, .. }) => Err(
            PathError::InvalidEnvVar { path: String::from_str(path), env: var },
        ),
        Err(e) => Err(e),
    }
}

/// Replaces each `@name` component of `path` by the destination directory of
/// the registered application `name`.
pub fn expand_app(apps: &Apps, path: &Path) -> (r: Result<Path, PathError>)
    ensures
        match (r, expand_app_spec(path@, apps.0@)) {
            (Ok(p), Ok(v)) => p@ == v,
            (Err(PathError::NoSuchApp { name }), Err(n)) => name@ == n,
            _ => false,
        },
{
    let ghost step = app_stepper(apps.0@);
    let mut acc = Path { absolute: path.absolute, comps: Vec::new() };
    assert(acc@.1 =~= Seq::<Seq<char>>::empty());
    let mut i: usize = 0;
    while i < path.comps.len()
        invariant
            i <= path.comps.len(),
            step == app_stepper(apps.0@),
            fold_steps((path@.0, seq![]), path@.1.subrange(0, i as int), step) == Ok::<PathView, Seq<char>>(acc@),
        decreases path.comps.len() - i,
    {
        let comp = &path.comps[i];
        assert(path@.1.subrange(0, i + 1).drop_last() =~= path@.1.subrange(0, i as int));
        assert(path@.1.subrange(0, i + 1).last() == comp@);
        match ref_name(comp, '@') {
            Some(name) => match apps.dir(name) {
                Some(d) => {
                    acc = acc.join(&d);
                },
                None => {
                    proof {
                        lemma_fold_err_stays((path@.0, seq![]), path@.1, i + 1, step);
                    }
                    return Err(PathError::NoSuchApp { name: String::from_str(name) });
                },
            },
            None => {
                acc = acc.join(&literal(comp));
            },
        }
        i = i + 1;
    }
    assert(path@.1.subrange(0, path@.1.len() as int) =~= path@.1);
    Ok(acc)
}

} // verus!
