use npm_utils::json::Json;
use npm_utils::resolve::{
    has_exports, package_dir, package_dir_within, package_file, package_file_within,
    relative_path, resolve_asset,
};
use npm_utils::source::PathKind;
use std::cell::Cell;
use std::collections::{HashMap, HashSet};

/// Directories, files and links, by path.
#[derive(Default)]
struct Disk {
    dirs: HashSet<String>,
    files: HashMap<String, String>,
    links: HashMap<String, String>,
}

impl Disk {
    fn dir(&mut self, path: &str) {
        let mut at = path.to_string();
        loop {
            self.dirs.insert(at.clone());
            match at.rfind('/') {
                Some(0) | None => break,
                Some(i) => at.truncate(i),
            }
        }
    }

    fn file(&mut self, path: &str, body: &str) {
        if let Some(i) = path.rfind('/') {
            self.dir(&path[..i]);
        }
        self.files.insert(path.to_string(), body.to_string());
    }

    /// Lay out `<root>/node_modules/<name>/` with a manifest and files.
    fn install(&mut self, root: &str, name: &str, manifest: &str, files: &[(&str, &str)]) {
        let pkg = format!("{root}/node_modules/{name}");
        self.file(&format!("{pkg}/package.json"), manifest);
        for (rel, body) in files {
            self.file(&format!("{pkg}/{rel}"), body);
        }
    }

    fn resolve(&self, path: &str) -> String {
        match self.links.get(path) {
            Some(target) => target.clone(),
            None => path.to_string(),
        }
    }

    fn kind(&self, path: &str) -> PathKind {
        let target = self.resolve(path);
        if self.dirs.contains(&target) {
            PathKind::Dir
        } else if self.files.contains_key(&target) {
            PathKind::File
        } else {
            PathKind::Missing
        }
    }

    fn canonical(&self, path: &str) -> Result<String, String> {
        match self.kind(path) {
            PathKind::Missing => Err("No such file or directory".to_string()),
            _ => Ok(self.resolve(path)),
        }
    }

    fn read(&self, path: &str) -> Result<Vec<u8>, String> {
        match self.files.get(&self.resolve(path)) {
            Some(body) => Ok(body.as_bytes().to_vec()),
            None => Err("No such file or directory".to_string()),
        }
    }

    fn find(&self, from: &str, name: &str) -> Result<String, String> {
        package_dir(from, name, |p: &str| self.kind(p), |p: &str| self.canonical(p))
    }

    fn find_within(&self, from: &str, name: &str, boundary: &str) -> Result<String, String> {
        package_dir_within(
            from,
            name,
            boundary,
            |p: &str| self.kind(p),
            |p: &str| self.canonical(p),
        )
    }

    fn get(&self, from: &str, name: &str, subpath: &str) -> Result<String, String> {
        package_file(
            from,
            name,
            subpath,
            |p: &str| self.kind(p),
            |p: &str| self.canonical(p),
            |p: &str| self.read(p),
        )
    }

    fn get_within(
        &self,
        from: &str,
        name: &str,
        subpath: &str,
        boundary: &str,
    ) -> Result<String, String> {
        package_file_within(
            from,
            name,
            subpath,
            boundary,
            |p: &str| self.kind(p),
            |p: &str| self.canonical(p),
            |p: &str| self.read(p),
        )
    }
}

fn json(text: &str) -> Json {
    Json::parse(text.as_bytes()).unwrap()
}

#[test]
fn package_dir_walks_up_to_node_modules() {
    let mut disk = Disk::default();
    disk.install(
        "/t",
        "bootstrap-icons",
        r#"{"name":"bootstrap-icons"}"#,
        &[],
    );
    disk.dir("/t/web/icons/bi");
    assert_eq!(
        disk.find("/t/web/icons/bi", "bootstrap-icons").unwrap(),
        "/t/node_modules/bootstrap-icons"
    );
    let err = disk.find("/t/web/icons/bi", "not-installed").unwrap_err();
    assert_eq!(
        err,
        "package \"not-installed\" is not installed in any node_modules above /t/web/icons/bi"
    );
}

#[test]
fn the_nearest_package_wins() {
    let mut disk = Disk::default();
    disk.install("/t", "p", "{}", &[]);
    disk.install("/t/web", "p", "{}", &[]);
    assert_eq!(disk.find("/t/web/", "p").unwrap(), "/t/web/node_modules/p");
    assert_eq!(disk.find("/t/other", "p").unwrap(), "/t/node_modules/p");
}

#[test]
fn a_relative_start_is_followed_to_its_end() {
    let mut disk = Disk::default();
    disk.dirs.insert("node_modules/p".to_string());
    assert_eq!(disk.find("web/icons", "p").unwrap(), "node_modules/p");
}

#[test]
fn package_file_addresses_directly_without_exports() {
    let mut disk = Disk::default();
    disk.install(
        "/t",
        "bootstrap-icons",
        r#"{"name":"bootstrap-icons","files":["icons/*.svg"]}"#,
        &[("icons/eye.svg", "<svg/>")],
    );
    disk.dir("/t/web");
    let file = disk
        .get("/t/web", "bootstrap-icons", "icons/eye.svg")
        .unwrap();
    assert_eq!(disk.files.get(&file).unwrap(), "<svg/>");
    assert!(disk
        .get("/t/web", "bootstrap-icons", "icons/missing.svg")
        .is_err());
    assert!(disk
        .get("/t/web", "bootstrap-icons", "../escape.svg")
        .is_err());
}

#[test]
fn package_file_honors_exports_encapsulation() {
    let mut disk = Disk::default();
    disk.install(
        "/t",
        "guarded",
        r#"{"exports":{"./icons/*":"./dist/icons/*.svg"}}"#,
        &[("dist/icons/eye.svg", "<svg/>"), ("secret.txt", "nope")],
    );
    let file = disk.get("/t", "guarded", "icons/eye").unwrap();
    assert!(file.ends_with("dist/icons/eye.svg"));
    let err = disk.get("/t", "guarded", "secret.txt").unwrap_err();
    assert_eq!(
        err,
        "guarded/secret.txt: not exported by guarded \
         (its package.json `exports` does not map this subpath)"
    );
}

#[test]
fn scoped_package_resolves() {
    let mut disk = Disk::default();
    disk.install(
        "/t",
        "@scope/pkg",
        r#"{"name":"@scope/pkg"}"#,
        &[("a/b.svg", "x")],
    );
    let file = disk.get("/t", "@scope/pkg", "a/b.svg").unwrap();
    assert_eq!(disk.files.get(&file).unwrap(), "x");
}

#[test]
fn package_dir_within_stops_the_ascent_at_the_boundary() {
    let mut disk = Disk::default();
    disk.install("/t", "pkg", r#"{"name":"pkg"}"#, &[("a.svg", "x")]);
    disk.dir("/t/project/web/icons");
    let deep = "/t/project/web/icons";
    assert!(disk.find(deep, "pkg").is_ok());
    assert_eq!(
        disk.find_within(deep, "pkg", "/t/project").unwrap_err(),
        "package \"pkg\" is not installed in any node_modules \
         between /t/project/web/icons and /t/project"
    );
    assert!(disk.get_within(deep, "pkg", "a.svg", "/t/project").is_err());
}

#[test]
fn package_dir_within_checks_the_boundary_level_itself() {
    let mut disk = Disk::default();
    disk.install("/t/project", "pkg", r#"{"name":"pkg"}"#, &[("a.svg", "x")]);
    disk.dir("/t/project/web/icons");
    let deep = "/t/project/web/icons";
    assert!(disk.find_within(deep, "pkg", "/t/project").is_ok());
    let file = disk.get_within(deep, "pkg", "a.svg", "/t/project").unwrap();
    assert_eq!(disk.files.get(&file).unwrap(), "x");
}

#[test]
fn a_linked_start_directory_cannot_slip_past_the_boundary() {
    let mut disk = Disk::default();
    disk.install("/t", "pkg", r#"{"name":"pkg"}"#, &[("a.svg", "x")]);
    disk.dir("/t/project/web");
    disk.links
        .insert("/t/link".to_string(), "/t/project/web".to_string());
    assert_eq!(
        disk.find("/t/link", "pkg").unwrap(),
        "/t/node_modules/pkg",
        "without a boundary the package above is found"
    );
    assert!(disk.find_within("/t/link", "pkg", "/t/project").is_err());
    assert!(disk
        .get_within("/t/link", "pkg", "a.svg", "/t/project")
        .is_err());
}

#[test]
fn a_start_linked_from_elsewhere_stays_within_the_boundary() {
    let mut disk = Disk::default();
    disk.install("/x", "pkg", "{}", &[]);
    disk.dir("/t/project/web");
    disk.links
        .insert("/x/link".to_string(), "/t/project/web".to_string());
    assert!(disk.find("/x/link", "pkg").is_ok());
    assert!(disk.find_within("/x/link", "pkg", "/t/project").is_err());
}

#[test]
fn a_start_outside_the_boundary_is_not_bounded() {
    let mut disk = Disk::default();
    disk.install("/x", "pkg", "{}", &[]);
    disk.dir("/x/y");
    disk.dir("/t/project");
    assert_eq!(
        disk.find_within("/x/y", "pkg", "/t/project").unwrap(),
        "/x/node_modules/pkg"
    );
}

#[test]
fn a_relative_start_is_bounded_by_the_working_directory() {
    let mut disk = Disk::default();
    disk.dir("/w/web/icons");
    disk.dir("node_modules/p");
    for (path, real) in [(".", "/w"), ("web", "/w/web"), ("web/icons", "/w/web/icons")] {
        disk.links.insert(path.to_string(), real.to_string());
    }
    disk.file("node_modules/p/a.svg", "x");
    assert_eq!(
        disk.find_within("web/icons", "p", ".").unwrap(),
        "node_modules/p",
        "the working directory is the boundary, and still looked at"
    );
    assert_eq!(
        disk.get_within("web", "p", "a.svg", ".").unwrap(),
        "node_modules/p/a.svg"
    );
    assert!(
        disk.find_within("web/icons", "p", "web").is_err(),
        "the working directory lies above"
    );
}

#[test]
fn a_boundary_that_does_not_resolve_is_an_error() {
    let disk = Disk::default();
    assert_eq!(
        disk.find_within("/t", "pkg", "/gone").unwrap_err(),
        "resolve boundary /gone: No such file or directory"
    );
}

#[test]
fn package_dir_refuses_an_absolute_name_before_touching_the_disk() {
    let touched = Cell::new(false);
    let kind = |_: &str| {
        touched.set(true);
        PathKind::Dir
    };
    let canonical = |p: &str| -> Result<String, String> {
        touched.set(true);
        Ok(p.to_string())
    };
    let read = |_: &str| -> Result<Vec<u8>, String> { Ok(Vec::new()) };
    assert!(package_dir("/t", "/etc", kind, canonical).is_err());
    assert!(package_file("/t", "/", "etc/passwd", kind, canonical, read).is_err());
    assert!(!touched.get());
}

#[test]
fn package_file_refuses_an_in_package_symlink_that_escapes() {
    let mut disk = Disk::default();
    disk.install(
        "/t",
        "pkg",
        r#"{"name":"pkg"}"#,
        &[("ok.svg", "<svg/>")],
    );
    disk.file("/t/secret.txt", "top secret");
    disk.links.insert(
        "/t/node_modules/pkg/leak.txt".to_string(),
        "/t/secret.txt".to_string(),
    );
    assert_eq!(
        disk.get("/t", "pkg", "leak.txt").unwrap_err(),
        "pkg/leak.txt: resolves outside pkg"
    );
    assert!(disk.get("/t", "pkg", "ok.svg").is_ok());
}

#[test]
fn directories_and_broken_manifests_are_refused() {
    let mut disk = Disk::default();
    disk.install("/t", "pkg", "{}", &[("icons/eye.svg", "x")]);
    disk.install("/t", "broken", "{", &[("a", "x")]);
    assert_eq!(
        disk.get("/t", "pkg", "icons").unwrap_err(),
        "pkg/icons: not a file in the package"
    );
    assert_eq!(
        disk.get("/t", "pkg", "").unwrap_err(),
        "pkg/: refuses an unsafe or empty subpath"
    );
    assert!(disk.get("/t", "broken", "a").is_err());
    assert_eq!(
        disk.get("/t", "pkg", "gone").unwrap_err(),
        "pkg/gone: No such file or directory"
    );
}

#[test]
fn a_package_without_a_manifest_is_addressed_directly() {
    let mut disk = Disk::default();
    disk.file("/t/node_modules/bare/a.txt", "x");
    assert!(disk.get("/t", "bare", "./a.txt").is_ok());
    assert!(disk.get("/t", "bare", "../../a.txt").is_err());
}

#[test]
fn exports_map_exact_names_patterns_and_conditions() {
    let manifest = json(
        r#"{ "exports": {
            "./a": "./lib/a.js",
            "./b": { "import": "./esm/b.js", "default": "./cjs/b.js" },
            "./c": { "node": "./c.js" },
            "./icons/*": "./dist/*.svg",
            "./icons/big/*": "./dist/big/*/*.svg",
            "./up": "./../up.js",
            "./bare": "bare.js",
            "./none": null
        } }"#,
    );
    assert!(has_exports(&manifest));
    let get = |subpath: &str| resolve_asset(&manifest, subpath);
    assert_eq!(get("a").as_deref(), Some("lib/a.js"));
    assert_eq!(get("./a").as_deref(), Some("lib/a.js"));
    assert_eq!(get("b").as_deref(), Some("esm/b.js"));
    assert_eq!(get("c"), None);
    assert_eq!(get("icons/eye").as_deref(), Some("dist/eye.svg"));
    assert_eq!(get("icons/big/eye").as_deref(), Some("dist/big/eye/eye.svg"));
    assert_eq!(get("icons/"), None);
    assert_eq!(get("up"), None);
    assert_eq!(get("bare"), None);
    assert_eq!(get("none"), None);
    assert_eq!(get("elsewhere"), None);
    assert!(!has_exports(&json("{}")));
    assert_eq!(
        relative_path("p", "x", &json("{}")).unwrap(),
        "x",
        "without exports the file is addressed directly"
    );
}
