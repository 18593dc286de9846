use sitebuild::asset::{
    all, All2, Asset, Cache, Constant, Dir, Dynamic, Flatten, FlattenCached, FsPath, Mapped,
    ModifiesPath, Pure, TextFile, ToFile, Volatile,
};
use sitebuild::disk::{Disk, Entry, ReadError};
use sitebuild::modified::Modified;
use std::cell::Cell;
use std::rc::Rc;

fn p(parts: &[&str]) -> Vec<String> {
    parts.iter().map(|s| s.to_string()).collect()
}

fn file(parts: &[&str], mtime: u64, text: &str) -> Entry {
    Entry { path: p(parts), mtime, is_dir: false, bytes: text.as_bytes().to_vec() }
}

fn dir(parts: &[&str], mtime: u64) -> Entry {
    Entry { path: p(parts), mtime, is_dir: true, bytes: Vec::new() }
}

fn text_of(r: Result<String, ReadError>) -> String {
    r.unwrap()
}

#[test]
fn cache_runs_work_once_when_nothing_changed() {
    let mut disk = Disk::new(100, Modified::At(1));
    disk.observe(file(&["src", "a.md"], 10, "hello"));
    let runs = Rc::new(Cell::new(0));
    let counter = runs.clone();
    let mut cache = Cache::new(Mapped::new(TextFile::new(p(&["src", "a.md"])), move |r| {
        counter.set(counter.get() + 1);
        r
    }));
    let first = text_of(cache.generate(&mut disk));
    let second = text_of(cache.generate(&mut disk));
    assert_eq!(first, "hello");
    assert_eq!(first, second);
    assert_eq!(runs.get(), 1);
    assert!(disk.take_written().is_empty());
}

#[test]
fn cache_rereads_touched_file_and_spares_others() {
    let mut disk = Disk::new(100, Modified::At(1));
    disk.observe(file(&["a.txt"], 10, "one"));
    disk.observe(file(&["b.txt"], 20, "bee"));
    let runs_a = Rc::new(Cell::new(0));
    let runs_b = Rc::new(Cell::new(0));
    let (ca, cb) = (runs_a.clone(), runs_b.clone());
    let mut a = Cache::new(Mapped::new(TextFile::new(p(&["a.txt"])), move |r| {
        ca.set(ca.get() + 1);
        r
    }));
    let mut b = Cache::new(Mapped::new(TextFile::new(p(&["b.txt"])), move |r| {
        cb.set(cb.get() + 1);
        r
    }));
    assert_eq!(text_of(a.generate(&mut disk)), "one");
    assert_eq!(text_of(b.generate(&mut disk)), "bee");
    disk.write(p(&["a.txt"]), b"two".to_vec());
    assert_eq!(disk.stamp(&p(&["a.txt"])), Modified::At(101));
    assert_eq!(text_of(a.generate(&mut disk)), "two");
    assert_eq!(text_of(b.generate(&mut disk)), "bee");
    assert_eq!(runs_a.get(), 2);
    assert_eq!(runs_b.get(), 1);
}

#[test]
fn write_node_writes_once_when_run_twice() {
    let mut disk = Disk::new(100, Modified::At(1));
    disk.observe(file(&["src", "style.css"], 10, "a{}"));
    let mut node = ToFile::new(
        Mapped::new(TextFile::new(p(&["src", "style.css"])), |r: Result<String, ReadError>| {
            r.unwrap_or_default()
        }),
        p(&["dist", "style.css"]),
    );
    node.generate(&mut disk);
    let stamp = disk.stamp(&p(&["dist", "style.css"]));
    assert_eq!(stamp, Modified::At(101));
    node.generate(&mut disk);
    assert_eq!(disk.stamp(&p(&["dist", "style.css"])), stamp);
    assert_eq!(disk.take_written(), vec![p(&["dist", "style.css"])]);
    assert_eq!(disk.file_bytes(&p(&["dist", "style.css"])), Some(b"a{}".to_vec()));
}

#[test]
fn write_node_redone_after_program_upgrade() {
    let mut disk = Disk::new(100, Modified::At(50));
    disk.observe(file(&["in"], 10, "x"));
    disk.observe(file(&["out"], 40, "old"));
    let mut node = ToFile::new(
        Mapped::new(TextFile::new(p(&["in"])), |r: Result<String, ReadError>| r.unwrap_or_default()),
        p(&["out"]),
    );
    node.generate(&mut disk);
    assert_eq!(disk.file_bytes(&p(&["out"])), Some(b"x".to_vec()));
}

#[test]
fn write_node_skipped_when_output_is_newer() {
    let mut disk = Disk::new(100, Modified::At(5));
    disk.observe(file(&["in"], 10, "x"));
    disk.observe(file(&["out"], 40, "old"));
    let mut node = ToFile::new(
        Mapped::new(TextFile::new(p(&["in"])), |r: Result<String, ReadError>| r.unwrap_or_default()),
        p(&["out"]),
    );
    node.generate(&mut disk);
    assert_eq!(disk.file_bytes(&p(&["out"])), Some(b"old".to_vec()));
    assert!(disk.take_written().is_empty());
}

fn copy_plan(listing: Result<Vec<Vec<String>>, ReadError>) -> sitebuild::asset::AllVec<ToFile<Mapped<TextFile, fn(Result<String, ReadError>) -> String>>> {
    let mut steps = Vec::new();
    for path in listing.unwrap_or_default() {
        let name = path.last().unwrap().clone();
        let f: fn(Result<String, ReadError>) -> String = |r| r.unwrap_or_default();
        steps.push(ToFile::new(Mapped::new(TextFile::new(path), f), vec!["out".to_string(), name]));
    }
    all(steps)
}

#[test]
fn flatten_finds_file_added_to_directory() {
    let mut disk = Disk::new(100, Modified::At(1));
    disk.observe(dir(&["posts"], 10));
    disk.observe(file(&["posts", "a.md"], 10, "A"));
    let mut site = Flatten::new(Mapped::new(Dir::new(p(&["posts"])), copy_plan));
    site.generate(&mut disk);
    assert_eq!(disk.take_written(), vec![p(&["out", "a.md"])]);
    disk.observe(file(&["posts", "b.md"], 120, "B"));
    disk.observe(dir(&["posts"], 120));
    assert_eq!(site.modified(&disk), Modified::At(120));
    site.generate(&mut disk);
    assert_eq!(disk.take_written(), vec![p(&["out", "b.md"])]);
    assert_eq!(disk.file_bytes(&p(&["out", "b.md"])), Some(b"B".to_vec()));
}

#[test]
fn dir_lists_direct_children_only() {
    let mut disk = Disk::new(100, Modified::Never);
    disk.observe(dir(&["d"], 10));
    disk.observe(file(&["d", "x"], 10, ""));
    disk.observe(file(&["d", "sub", "y"], 10, ""));
    disk.observe(file(&["e", "z"], 10, ""));
    let listing = Dir::new(p(&["d"])).compute(&disk).unwrap();
    assert_eq!(listing, vec![p(&["d", "x"])]);
    assert_eq!(Dir::new(p(&["missing"])).compute(&disk).unwrap_err().path, p(&["missing"]));
}

#[test]
fn text_file_errors_carry_path() {
    let mut disk = Disk::new(100, Modified::Never);
    disk.observe(Entry { path: p(&["bin"]), mtime: 3, is_dir: false, bytes: vec![0xff, 0xfe] });
    assert_eq!(TextFile::new(p(&["bin"])).compute(&disk).unwrap_err().path, p(&["bin"]));
    assert_eq!(TextFile::new(p(&["none"])).compute(&disk).unwrap_err().path, p(&["none"]));
    assert_eq!(TextFile::new(p(&["none"])).modified(&disk), Modified::Never);
}

#[test]
fn leaves_report_their_stamps() {
    let mut disk = Disk::new(77, Modified::Never);
    disk.observe(file(&["f"], 5, "x"));
    assert_eq!(Constant::new(3u8).modified(&disk), Modified::Never);
    assert_eq!(Constant::new(3u8).compute(&disk), 3);
    assert_eq!(Dynamic::new("v", 42).modified(&disk), Modified::At(42));
    assert_eq!(Volatile.modified(&disk), Modified::At(77));
    assert_eq!(FsPath::new(p(&["f"])).modified(&disk), Modified::At(5));
    assert_eq!(FsPath::new(p(&["g"])).modified(&disk), Modified::Never);
}

#[test]
fn joins_take_latest_stamp_and_keep_order() {
    let mut disk = Disk::new(100, Modified::Never);
    disk.observe(file(&["a"], 5, "A"));
    disk.observe(file(&["b"], 9, "B"));
    let mut pair = All2::new(TextFile::new(p(&["a"])), TextFile::new(p(&["b"])));
    assert_eq!(pair.modified(&disk), Modified::At(9));
    let (x, y) = pair.generate(&mut disk);
    assert_eq!((x.unwrap(), y.unwrap()), ("A".to_string(), "B".to_string()));
    let mut many = all(vec![TextFile::new(p(&["b"])), TextFile::new(p(&["a"]))]);
    assert_eq!(many.modified(&disk), Modified::At(9));
    let out: Vec<String> = many.generate(&mut disk).into_iter().map(|r| r.unwrap()).collect();
    assert_eq!(out, vec!["B".to_string(), "A".to_string()]);
    let empty: sitebuild::asset::AllVec<TextFile> = all(Vec::new());
    assert_eq!(empty.modified(&disk), Modified::Never);
}

#[test]
fn modifies_path_gates_on_output_stamp() {
    let mut disk = Disk::new(100, Modified::Never);
    disk.observe(file(&["in"], 10, "x"));
    let runs = Rc::new(Cell::new(0));
    let counter = runs.clone();
    let mut node = ModifiesPath::new(
        Mapped::new(FsPath::new(p(&["in"])), move |()| counter.set(counter.get() + 1)),
        p(&["out"]),
    );
    node.generate(&mut disk);
    assert_eq!(runs.get(), 1);
    disk.observe(file(&["out"], 50, "y"));
    node.generate(&mut disk);
    assert_eq!(runs.get(), 1);
    assert_eq!(node.modified(&disk), Modified::At(50));
}

#[test]
fn modified_order_and_max() {
    assert_eq!(Modified::Never.max(Modified::At(3)), Modified::At(3));
    assert_eq!(Modified::At(3).max(Modified::Never), Modified::At(3));
    assert_eq!(Modified::At(3).max(Modified::At(7)), Modified::At(7));
    assert!(Modified::At(0).at_least(Modified::Never));
    assert!(!Modified::Never.at_least(Modified::At(0)));
    assert!(Modified::At(4).at_least(Modified::At(4)));
    assert_eq!(Modified::from_mtime(None), Modified::Never);
    assert_eq!(Modified::from_mtime(Some(9)), Modified::At(9));
}

#[test]
fn disk_forget_and_clock() {
    let mut disk = Disk::new(10, Modified::At(20));
    assert_eq!(disk.now(), 20);
    disk.observe(file(&["a"], 30, "x"));
    assert_eq!(disk.now(), 30);
    disk.forget(&p(&["a"]));
    assert_eq!(disk.stamp(&p(&["a"])), Modified::Never);
    assert_eq!(disk.exe_modified(), Modified::At(20));
}

#[test]
fn boxed_assets_delegate() {
    let mut disk = Disk::new(100, Modified::Never);
    disk.observe(file(&["a"], 5, "A"));
    let mut boxed = Box::new(TextFile::new(p(&["a"])));
    assert_eq!(boxed.modified(&disk), Modified::At(5));
    assert_eq!(boxed.generate(&mut disk).unwrap(), "A");
}

#[test]
fn write_node_skipped_when_output_as_new_as_inputs() {
    let mut disk = Disk::new(100, Modified::At(5));
    disk.observe(file(&["in"], 40, "x"));
    disk.observe(file(&["out"], 40, "old"));
    let mut node = ToFile::new(
        Mapped::new(TextFile::new(p(&["in"])), |r: Result<String, ReadError>| r.unwrap_or_default()),
        p(&["out"]),
    );
    node.generate(&mut disk);
    assert_eq!(disk.file_bytes(&p(&["out"])), Some(b"old".to_vec()));
    let runs = Rc::new(Cell::new(0));
    let counter = runs.clone();
    let mut gated = ModifiesPath::new(
        Mapped::new(FsPath::new(p(&["in"])), move |()| counter.set(counter.get() + 1)),
        p(&["out"]),
    );
    gated.generate(&mut disk);
    assert_eq!(runs.get(), 0);
}

#[test]
fn volatile_reruns_every_tick() {
    let mut disk = Disk::new(100, Modified::Never);
    let runs = Rc::new(Cell::new(0));
    let counter = runs.clone();
    let mut cache = Cache::new(Mapped::new(Volatile, move |()| counter.set(counter.get() + 1)));
    cache.generate(&mut disk);
    cache.generate(&mut disk);
    assert_eq!(runs.get(), 1);
    disk.tick();
    cache.generate(&mut disk);
    assert_eq!(runs.get(), 2);
}

#[test]
fn new_file_restamps_its_directory() {
    let mut disk = Disk::new(100, Modified::Never);
    disk.observe(dir(&["d"], 10));
    disk.write(p(&["d", "x"]), b"1".to_vec());
    assert_eq!(disk.stamp(&p(&["d"])), Modified::At(101));
    disk.write(p(&["d", "x"]), b"2".to_vec());
    assert_eq!(disk.stamp(&p(&["d"])), Modified::At(101));
    assert_eq!(disk.stamp(&p(&["d", "x"])), Modified::At(102));
}

#[test]
fn kept_plan_keeps_its_caches_until_directory_changes() {
    let mut disk = Disk::new(100, Modified::Never);
    disk.observe(dir(&["posts"], 10));
    disk.observe(file(&["posts", "a.md"], 10, "A"));
    let runs = Rc::new(Cell::new(0));
    let counter = runs.clone();
    let mut site = FlattenCached::new(Mapped::new(Dir::new(p(&["posts"])), move |l: Result<Vec<Vec<String>>, ReadError>| {
        let c = counter.clone();
        all(l.unwrap_or_default().into_iter().map(move |path| {
            let c = c.clone();
            Cache::new(Mapped::new(TextFile::new(path), move |r: Result<String, ReadError>| {
                c.set(c.get() + 1);
                r.unwrap_or_default()
            }))
        }).collect::<Vec<_>>())
    }));
    assert_eq!(site.generate(&mut disk), vec!["A".to_string()]);
    assert_eq!(site.generate(&mut disk), vec!["A".to_string()]);
    assert_eq!(runs.get(), 1);
    disk.write(p(&["posts", "b.md"]), b"B".to_vec());
    assert_eq!(site.modified(&disk), Modified::At(101));
    assert_eq!(site.generate(&mut disk), vec!["A".to_string(), "B".to_string()]);
    assert_eq!(runs.get(), 3);
}
