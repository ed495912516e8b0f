use vynkor_plugins::filesystem::{
    clamp_max_read, components, env_roots, path_bytes, Config, Lookup, RawRoot, ResolveStep,
    ResolvedPath, Sandbox, DEFAULT_MAX_LIST_ENTRIES, DEFAULT_MAX_READ_BYTES,
    MAX_READ_BYTES_HARD_CAP,
};

/// The directories that exist.
const EXISTING: [&str; 4] = ["/", "/srv", "/srv/root", "/etc"];

/// A link to what is not there, outside the root.
const DANGLING: &str = "/srv/root/link";

/// A link to a directory below the root whose name is not text.
const ODD_LINK: &str = "/srv/root/odd";

fn odd_name() -> Vec<u8> {
    vec![0x61, 0xff]
}

fn look_up(parts: &[Vec<u8>]) -> Lookup {
    match canonicalize(parts) {
        Some(path) => Lookup::Leads { path },
        None if path_bytes(&parts.to_vec()) == DANGLING.as_bytes() => Lookup::Astray,
        None if path_bytes(&parts.to_vec()) == ODD_LINK.as_bytes() => {
            Lookup::Leads { path: vec![b"srv".to_vec(), b"root".to_vec(), odd_name()] }
        }
        None => Lookup::Missing,
    }
}

fn canonicalize(parts: &[Vec<u8>]) -> Option<Vec<Vec<u8>>> {
    let mut out: Vec<Vec<u8>> = Vec::new();
    for part in parts {
        if part == b".." {
            out.pop();
        } else {
            out.push(part.clone());
        }
        let so_far = path_bytes(&out);
        if !EXISTING.iter().any(|e| e.as_bytes() == so_far) {
            return None;
        }
    }
    Some(out)
}

fn sandbox(roots: &[&str]) -> Sandbox {
    let raw: Vec<RawRoot> = roots
        .iter()
        .map(|r| RawRoot {
            entry: r.to_string(),
            canonical: canonicalize(&components(r.as_bytes())),
        })
        .collect();
    Sandbox::from_raw_roots(&raw)
}

fn resolve(sandbox: &Sandbox, path: &str) -> Result<ResolvedPath, String> {
    resolve_bytes(sandbox, path.as_bytes())
}

fn resolve_bytes(sandbox: &Sandbox, path: &[u8]) -> Result<ResolvedPath, String> {
    let mut state = sandbox.begin_resolve(&path.to_vec())?;
    loop {
        let found = look_up(&state.ancestor);
        match sandbox.resolve_step(&mut state, found) {
            ResolveStep::Continue => {}
            ResolveStep::Done { result } => return result,
        }
    }
}

#[test]
fn empty_roots_are_deny_all() {
    let sandbox = sandbox(&[]);
    assert!(sandbox.roots().is_empty());
    let err = resolve(&sandbox, "/tmp/x").unwrap_err();
    assert!(err.contains("ERR_FILES_NO_ROOTS"), "{err}");
}

#[test]
fn relative_and_nonexistent_roots_are_skipped() {
    let sandbox = sandbox(&["relative/path", "/nonexistent/deadbeef/xyz"]);
    assert!(sandbox.roots().is_empty());
}

#[test]
fn resolve_rejects_relative_paths() {
    let sandbox = sandbox(&["/srv/root"]);
    let err = resolve(&sandbox, "some/relative/path").unwrap_err();
    assert!(err.contains("ERR_FILES_PATH_MUST_BE_ABSOLUTE"), "{err}");
}

#[test]
fn resolve_allows_paths_inside_root_and_marks_root() {
    let sandbox = sandbox(&["/srv/root"]);
    let root = resolve(&sandbox, "/srv/root").unwrap();
    assert!(root.is_root);

    let inner = resolve(&sandbox, "/srv/root/a/b.txt").unwrap();
    assert!(!inner.is_root);
    assert_eq!(path_bytes(&inner.path), b"/srv/root/a/b.txt");
}

#[test]
fn resolve_rejects_traversal_that_escapes() {
    let sandbox = sandbox(&["/srv/root"]);
    // "a/../.." — the leading 'a' doesn't exist, so '..' survives into
    // the non-existing remainder and is rejected before any join.
    let err = resolve(&sandbox, "/srv/root/a/../..").unwrap_err();
    assert!(err.contains("ERR_FILES_PATH_TRAVERSAL"), "{err}");
}

#[test]
fn resolve_rejects_what_lies_outside() {
    let sandbox = sandbox(&["/srv/root"]);
    let err = resolve(&sandbox, "/etc/passwd").unwrap_err();
    assert!(err.contains("ERR_FILES_PATH_ESCAPES_ROOT"), "{err}");
    let err = resolve(&sandbox, "/srv/root/../../etc").unwrap_err();
    assert!(err.contains("ERR_FILES_PATH_ESCAPES_ROOT"), "{err}");
}

#[test]
fn resolve_rejects_links_that_lead_nowhere() {
    let sandbox = sandbox(&["/srv/root"]);
    let err = resolve(&sandbox, "/srv/root/link").unwrap_err();
    assert!(err.contains("ERR_FILES_PATH_UNRESOLVABLE"), "{err}");
    // Nor is anything behind such a link reached.
    let err = resolve(&sandbox, "/srv/root/link/a/b").unwrap_err();
    assert!(err.contains("ERR_FILES_PATH_UNRESOLVABLE"), "{err}");
}

#[test]
fn every_root_is_marked_even_below_another() {
    let sandbox = sandbox(&["/srv/root", "/srv"]);
    assert_eq!(sandbox.roots().len(), 2);
    assert!(resolve(&sandbox, "/srv").unwrap().is_root);
    assert!(resolve(&sandbox, "/srv/root").unwrap().is_root);
}

#[test]
fn names_need_not_be_text() {
    let sandbox = sandbox(&["/srv/root"]);
    let through_link = resolve(&sandbox, "/srv/root/odd/f").unwrap();
    assert_eq!(path_bytes(&through_link.path), b"/srv/root/a\xff/f");
    let named = resolve_bytes(&sandbox, b"/srv/root/a\xff").unwrap();
    assert_eq!(path_bytes(&named.path), b"/srv/root/a\xff");
    let err = resolve_bytes(&sandbox, b"/etc/\xff").unwrap_err();
    assert!(err.contains("`path` (/etc/\u{fffd}) resolves outside"), "{err}");
}

#[test]
fn complaints_show_the_path() {
    let sandbox = sandbox(&["/srv/root"]);
    let err = sandbox.begin_shown(&b"rel".to_vec(), "rel".to_string()).unwrap_err();
    assert!(err.contains("`path` (rel) must be an absolute path"), "{err}");
    let state = sandbox.begin_shown(&b"/a".to_vec(), "/a".to_string()).unwrap();
    assert_eq!(state.ancestor, vec![b"a".to_vec()]);
}

#[test]
fn paths_are_split_and_joined() {
    assert_eq!(components(b"/a//b/./c/"), vec![b"a".to_vec(), b"b".to_vec(), b"c".to_vec()]);
    assert_eq!(path_bytes(&vec![b"a".to_vec(), b"b".to_vec()]), b"/a/b");
    assert_eq!(path_bytes(&Vec::new()), b"/");
}

#[test]
fn filesystem_configuration() {
    let c = Config::from_env(&None, &None);
    assert_eq!(c.max_list_entries, DEFAULT_MAX_LIST_ENTRIES);
    assert_eq!(c.max_read_bytes, DEFAULT_MAX_READ_BYTES);
    assert_eq!(clamp_max_read(u64::MAX), MAX_READ_BYTES_HARD_CAP);
    assert_eq!(env_roots(" /a , /b,,"), vec!["/a", "/b"]);
}
