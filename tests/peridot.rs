use peridot::cli::{App, AppConfig, Apps, Cli, Config, ConfigError, find_config};
use peridot::link::{check_link, link_parent, make_link, resolve_link, LinkStatus, Probe, SrcState};
use peridot::path::{expand_app, expand_env, to_path, Env, Path, PathError};

fn s(x: &str) -> String {
    x.to_string()
}

fn env_with(home: &str, vars: &[(&str, &str)]) -> Env {
    Env {
        home: Path::parse(home),
        vars: vars.iter().map(|(k, v)| (s(k), s(v))).collect(),
    }
}

fn bare_app() -> AppConfig {
    AppConfig { srcdir: None, dstdir: None, description: None, links: None }
}

fn registry_with_zsh() -> Apps {
    let env = env_with("/home/u", &[]);
    let cfg = AppConfig { srcdir: None, dstdir: Some(s("/dots/zsh")), description: None, links: None };
    Apps::new(&Path::parse("/base"), vec![(s("zsh"), cfg)], &env).ok().unwrap()
}

#[test]
fn parse_splits_components() {
    let p = Path::parse("/home//u/./.vimrc/");
    assert!(p.absolute);
    assert_eq!(p.comps, vec![s("home"), s("u"), s(".vimrc")]);
    assert_eq!(p.render(), "/home/u/.vimrc");
    let r = Path::parse("a/b");
    assert!(!r.absolute);
    assert_eq!(r.render(), "a/b");
    assert_eq!(Path::parse("").render(), "");
}

#[test]
fn join_appends_or_replaces() {
    let base = Path::parse("/home/u");
    assert_eq!(base.join(&Path::parse("x/y")).render(), "/home/u/x/y");
    assert_eq!(base.join(&Path::parse("/etc")).render(), "/etc");
    assert!(base.same(&Path::parse("/home/u/")));
    assert!(!base.same(&Path::parse("home/u")));
}

#[test]
fn env_var_component_is_replaced() {
    let env = env_with("/home/u", &[("FOO", "bar")]);
    let r = expand_env(&Path::parse("a/$FOO/c"), &env).ok().unwrap();
    assert_eq!(r.render(), "a/bar/c");
}

#[test]
fn env_var_later_binding_wins() {
    let env = env_with("/home/u", &[("FOO", "one"), ("FOO", "two")]);
    assert_eq!(env.var("FOO"), Some(s("two")));
    assert_eq!(env.var("BAR"), None);
}

#[test]
fn env_var_with_rooted_value_replaces_prefix() {
    let env = env_with("/home/u", &[("HOME", "/home/u")]);
    let r = expand_env(&Path::parse("x/$HOME/.vimrc"), &env).ok().unwrap();
    assert_eq!(r.render(), "/home/u/.vimrc");
}

#[test]
fn env_var_unset_fails() {
    let env = env_with("/home/u", &[]);
    match expand_env(&Path::parse("a/$FOO"), &env) {
        Err(PathError::InvalidEnvVar { path, env }) => {
            assert_eq!(path, "a/$FOO");
            assert_eq!(env, "$FOO");
        },
        _ => panic!("expected InvalidEnvVar"),
    }
}

#[test]
fn app_reference_expands_to_dstdir() {
    let apps = registry_with_zsh();
    assert_eq!(apps.dir("zsh").unwrap().render(), "/dots/zsh");
    let r = expand_app(&apps, &Path::parse("@zsh")).ok().unwrap();
    assert_eq!(r.render(), "/dots/zsh");
    let r = expand_app(&apps, &Path::parse("@zsh/zshrc")).ok().unwrap();
    assert_eq!(r.render(), "/dots/zsh/zshrc");
}

#[test]
fn app_reference_missing_fails() {
    let apps = registry_with_zsh();
    assert!(apps.dir("missing").is_none());
    match expand_app(&apps, &Path::parse("@missing")) {
        Err(PathError::NoSuchApp { name }) => assert_eq!(name, "missing"),
        _ => panic!("expected NoSuchApp"),
    }
}

#[test]
fn normalize_link_arity() {
    assert_eq!(App::normalize_link(vec![s("a")]), Some((s("a"), s("a"))));
    assert_eq!(App::normalize_link(vec![s("a"), s("b")]), Some((s("a"), s("b"))));
    assert_eq!(App::normalize_link(vec![s("a"), s("b"), s("c")]), None);
    assert_eq!(App::normalize_link(vec![]), None);
}

#[test]
fn bad_link_arity_names_the_app() {
    let env = env_with("/home/u", &[]);
    let cfg = AppConfig {
        links: Some(vec![vec![s("a")], vec![s("a"), s("b"), s("c")]]),
        ..bare_app()
    };
    match Apps::new(&Path::parse("/base"), vec![(s("vim"), cfg)], &env) {
        Err(ConfigError::InvalidLinkArity { app }) => assert_eq!(app, "vim"),
        _ => panic!("expected InvalidLinkArity"),
    }
}

#[test]
fn app_dirs_default_and_expand() {
    let env = env_with("/home/u", &[("XDG", "/home/u/.config")]);
    let cfg = AppConfig { srcdir: Some(s("$XDG/nvim")), dstdir: Some(s("editors/nvim")), ..bare_app() };
    let app = App::new(&Path::parse("/home/u/.dotfiles"), &s("nvim"), cfg, &env).ok().unwrap();
    assert_eq!(app.srcdir.render(), "/home/u/.config/nvim");
    assert_eq!(app.dstdir.render(), "/home/u/.dotfiles/editors/nvim");
    assert!(app.links.is_empty());
    let app = App::new(&Path::parse("/home/u/.dotfiles"), &s("vim"), bare_app(), &env).ok().unwrap();
    assert_eq!(app.srcdir.render(), "/home/u");
    assert_eq!(app.dstdir.render(), "/home/u/.dotfiles/vim");
}

#[test]
fn app_srcdir_unset_var_fails() {
    let env = env_with("/home/u", &[]);
    let cfg = AppConfig { srcdir: Some(s("$NOPE/x")), ..bare_app() };
    match App::new(&Path::parse("/b"), &s("a"), cfg, &env) {
        Err(ConfigError::Path(PathError::InvalidEnvVar { path, env })) => {
            assert_eq!(path, "$NOPE/x");
            assert_eq!(env, "$NOPE");
        },
        _ => panic!("expected InvalidEnvVar"),
    }
}

fn probe(src: SrcState, dst_exists: bool) -> Probe {
    Probe { src, dst_exists }
}

#[test]
fn check_neither_exists() {
    let l = check_link(Path::parse("/h/.a"), Path::parse("/d/a"), probe(SrcState::Absent, false)).ok().unwrap();
    assert!(matches!(l.status, LinkStatus::DstUnexists));
    assert_eq!(l.src.render(), "/h/.a");
    assert_eq!(l.dst.render(), "/d/a");
}

#[test]
fn check_only_target_exists() {
    let l = check_link(Path::parse("/h/.a"), Path::parse("/d/a"), probe(SrcState::Absent, true)).ok().unwrap();
    assert!(matches!(l.status, LinkStatus::SrcUnexists));
}

#[test]
fn check_link_in_place() {
    let st = SrcState::Symlink(Path::parse("/d/a"));
    let l = check_link(Path::parse("/h/.a"), Path::parse("/d/a"), probe(st, false)).ok().unwrap();
    assert!(matches!(l.status, LinkStatus::Exists));
}

#[test]
fn check_link_elsewhere() {
    let st = SrcState::Symlink(Path::parse("/elsewhere"));
    let l = check_link(Path::parse("/h/.a"), Path::parse("/d/a"), probe(st, true)).ok().unwrap();
    match l.status {
        LinkStatus::Unexpected(p) => assert_eq!(p.render(), "/elsewhere"),
        _ => panic!("expected Unexpected"),
    }
}

#[test]
fn check_unreadable_location() {
    let st = SrcState::Unreadable(s("not a link"));
    match check_link(Path::parse("/h/.a"), Path::parse("/d/a"), probe(st, true)) {
        Err(PathError::IoError(m)) => assert_eq!(m, "not a link"),
        _ => panic!("expected IoError"),
    }
}

#[test]
fn make_link_outcomes() {
    match make_link(Path::parse("/"), Path::parse("/d/a"), Ok(())) {
        Err(PathError::NoParent(p)) => assert_eq!(p, "/"),
        _ => panic!("expected NoParent"),
    }
    match make_link(Path::parse("/h/.a"), Path::parse("/d/a"), Err(s("denied"))) {
        Err(PathError::IoError(m)) => assert_eq!(m, "denied"),
        _ => panic!("expected IoError"),
    }
    let l = make_link(Path::parse("/h/.a"), Path::parse("/d/a"), Ok(())).ok().unwrap();
    assert!(matches!(l.status, LinkStatus::Exists));
    assert_eq!(link_parent(&Path::parse("/h/x/.a")).ok().unwrap().render(), "/h/x");
}

#[test]
fn vim_scenario() {
    let env = env_with("/home/u", &[]);
    let base = Path::parse("/home/u/.dotfiles");
    let cfg = AppConfig { links: Some(vec![vec![s("vimrc"), s(".vimrc")]]), ..bare_app() };
    let apps = Apps::new(&base, vec![(s("vim"), cfg)], &env).ok().unwrap();
    let app = &apps.0[0].1;
    let (src, dst) = resolve_link(&apps, &app.dstdir, &app.srcdir, &app.links[0], &env).ok().unwrap();
    assert_eq!(dst.render(), "/home/u/.dotfiles/vim/vimrc");
    assert_eq!(src.render(), "/home/u/.vimrc");
    let l = check_link(src.copy(), dst.copy(), probe(SrcState::Absent, true)).ok().unwrap();
    assert!(matches!(l.status, LinkStatus::SrcUnexists));
    let made = make_link(src.copy(), dst.copy(), Ok(())).ok().unwrap();
    assert!(matches!(made.status, LinkStatus::Exists));
    let again = check_link(src, dst.copy(), probe(SrcState::Symlink(dst), true)).ok().unwrap();
    assert!(matches!(again.status, LinkStatus::Exists));
}

#[test]
fn resolve_link_with_app_reference_and_env() {
    let env = env_with("/home/u", &[("CFG", ".config")]);
    let apps = registry_with_zsh();
    let link = (s("@zsh/zshrc"), s("$CFG/zshrc"));
    let (src, dst) = resolve_link(&apps, &Path::parse("/d/x"), &Path::parse("/home/u"), &link, &env).ok().unwrap();
    assert_eq!(dst.render(), "/dots/zsh/zshrc");
    assert_eq!(src.render(), "/home/u/.config/zshrc");
    let bad = (s("a"), s("$UNSET"));
    assert!(matches!(
        resolve_link(&apps, &Path::parse("/d"), &Path::parse("/h"), &bad, &env),
        Err(PathError::InvalidEnvVar { .. })
    ));
}

#[test]
fn filters_select_apps() {
    let incl = Some(vec![s("a"), s("b")]);
    let excl = Some(vec![s("b")]);
    assert!(Config::app_filter(&incl, &excl, &s("a")));
    assert!(!Config::app_filter(&incl, &excl, &s("b")));
    assert!(!Config::app_filter(&incl, &None, &s("c")));
    assert!(Config::app_filter(&None, &None, &s("c")));
    assert!(!Config::app_filter(&None, &excl, &s("b")));
    let picked = Config::select_apps(
        vec![(s("a"), bare_app()), (s("b"), bare_app()), (s("c"), bare_app())],
        &None,
        &excl,
    );
    let names: Vec<String> = picked.into_iter().map(|e| e.0).collect();
    assert_eq!(names, vec![s("a"), s("c")]);
}

#[test]
fn config_from_arguments() {
    let env = env_with("/home/u", &[]);
    let home = Path::parse("/home/u");
    let base = Config::default_base_dir(&home);
    assert_eq!(base.render(), "/home/u/.dotfiles");
    assert_eq!(find_config(&base).render(), "/home/u/.dotfiles/peridot.toml");
    let args = Cli {
        base_dir: None,
        config_file: None,
        link: true,
        include_apps: Some(vec![s("vim")]),
        exclude_apps: None,
    };
    let cfg = Config::new(args, base, vec![(s("zsh"), bare_app()), (s("vim"), bare_app())], &env)
        .ok()
        .unwrap();
    assert!(cfg.link);
    assert_eq!(cfg.apps.0.len(), 1);
    assert_eq!(cfg.apps.0[0].0, "vim");
    assert_eq!(cfg.apps.0[0].1.dstdir.render(), "/home/u/.dotfiles/vim");
}

#[test]
fn to_path_expands_variables() {
    let env = env_with("/home/u", &[("FOO", "bar")]);
    assert_eq!(to_path("/x/$FOO", &env).ok().unwrap().render(), "/x/bar");
    assert!(matches!(to_path("$BAZ", &env), Err(PathError::InvalidEnvVar { .. })));
}

#[test]
fn error_messages() {
    let e = PathError::InvalidEnvVar { path: s("a/$FOO"), env: s("$FOO") };
    assert_eq!(e.message(), "Could not find environment variable $FOO in a/$FOO");
    assert_eq!(PathError::NoParent(s("/")).message(), "/ must have a parent directory");
    assert_eq!(PathError::NoSuchApp { name: s("zsh") }.message(), "No application named zsh");
    assert_eq!(PathError::IoError(s("denied")).message(), "denied");
}

#[test]
fn to_path_error_names_text_as_given() {
    let env = env_with("/home/u", &[]);
    match to_path("$F/", &env) {
        Err(PathError::InvalidEnvVar { path, env }) => {
            assert_eq!(path, "$F/");
            assert_eq!(env, "$F");
        },
        _ => panic!("expected InvalidEnvVar"),
    }
    let apps = registry_with_zsh();
    let bad = (s("a//$G"), s("x"));
    match resolve_link(&apps, &Path::parse("/d"), &Path::parse("/h"), &bad, &env) {
        Err(PathError::InvalidEnvVar { path, .. }) => assert_eq!(path, "a//$G"),
        _ => panic!("expected InvalidEnvVar"),
    }
}

#[test]
fn leading_dot_is_kept() {
    let p = Path::parse("./x");
    assert_eq!(p.comps, vec![s("."), s("x")]);
    assert_eq!(p.render(), "./x");
    assert!(!p.same(&Path::parse("x")));
    assert_eq!(Path::parse("a/./b").render(), "a/b");
    assert_eq!(Path::parse("/a").join(&p).render(), "/a/x");
    assert_eq!(Path::parse("").join(&p).render(), "./x");
}

#[test]
fn repeated_app_name_keeps_later_entry() {
    let env = env_with("/home/u", &[]);
    let first = AppConfig { dstdir: Some(s("/one")), ..bare_app() };
    let second = AppConfig { dstdir: Some(s("/two")), ..bare_app() };
    let apps = Apps::new(
        &Path::parse("/b"),
        vec![(s("vim"), first), (s("zsh"), bare_app()), (s("vim"), second)],
        &env,
    )
    .ok()
    .unwrap();
    assert_eq!(apps.0.len(), 2);
    assert_eq!(apps.0[0].0, "zsh");
    assert_eq!(apps.0[1].0, "vim");
    assert_eq!(apps.dir("vim").unwrap().render(), "/two");
}

#[test]
fn resolve_link_missing_app_in_token() {
    let env = env_with("/home/u", &[]);
    let apps = registry_with_zsh();
    let link = (s("x/@missing/y"), s(".y"));
    match resolve_link(&apps, &Path::parse("/d"), &Path::parse("/h"), &link, &env) {
        Err(PathError::NoSuchApp { name }) => assert_eq!(name, "missing"),
        _ => panic!("expected NoSuchApp"),
    }
}
