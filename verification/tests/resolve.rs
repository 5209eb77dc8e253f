use relexec::links::LinkTable;
use relexec::resolve::{chain_has_end, walk_step, walk_symlink, Walk};

fn table(links: &[(&[u8], &[u8])]) -> LinkTable {
    let mut t = LinkTable::new();
    for (path, target) in links {
        t.insert(path.to_vec(), target.to_vec());
    }
    t
}

#[test]
fn empty_table_holds_no_link() {
    let t = LinkTable::new();
    assert_eq!(t.read_link(b"/usr/bin/tool"), None);
    assert_eq!(t.read_link(b""), None);
}

#[test]
fn read_link_gives_the_stored_target() {
    let t = table(&[(b"/a", b"b"), (b"/c", b"/d")]);
    assert_eq!(t.read_link(b"/a"), Some(&b"b"[..]));
    assert_eq!(t.read_link(b"/c"), Some(&b"/d"[..]));
    assert_eq!(t.read_link(b"/b"), None);
    assert_eq!(t.read_link(b"/a/"), None);
}

#[test]
fn insert_replaces_the_target_of_a_known_link() {
    let mut t = table(&[(b"/a", b"old"), (b"/b", b"kept")]);
    t.insert(b"/a".to_vec(), b"new".to_vec());
    assert_eq!(t.read_link(b"/a"), Some(&b"new"[..]));
    assert_eq!(t.read_link(b"/b"), Some(&b"kept"[..]));
}

#[test]
fn walk_step_follows_a_link_from_its_own_directory() {
    assert_eq!(
        walk_step(b"/usr/local/bin/tool".to_vec(), Some(b"../libexec/tool")),
        Walk::Follow(b"/usr/local/bin/../libexec/tool".to_vec())
    );
    assert_eq!(
        walk_step(b"bin/tool".to_vec(), Some(b"impl")),
        Walk::Follow(b"bin/impl".to_vec())
    );
}

#[test]
fn walk_step_takes_an_absolute_target_as_it_is() {
    assert_eq!(
        walk_step(b"/usr/bin/tool".to_vec(), Some(b"/opt/tool/run")),
        Walk::Follow(b"/opt/tool/run".to_vec())
    );
}

#[test]
fn walk_step_joins_onto_a_path_without_parent() {
    assert_eq!(walk_step(b"/".to_vec(), Some(b"x")), Walk::Follow(b"/x".to_vec()));
    assert_eq!(walk_step(b"".to_vec(), Some(b"x")), Walk::Follow(b"x".to_vec()));
}

#[test]
fn walk_step_stops_where_nothing_was_read() {
    assert_eq!(
        walk_step(b"/opt/app/bin/run.py".to_vec(), None),
        Walk::Done(b"/opt/app/bin/run.py".to_vec())
    );
    assert_eq!(walk_step(b"".to_vec(), None), Walk::Done(b"".to_vec()));
}

#[test]
fn a_path_that_is_no_link_resolves_to_itself() {
    let none = LinkTable::new();
    assert_eq!(walk_symlink(b"/opt/app/bin/run.py", &none), b"/opt/app/bin/run.py".to_vec());
    assert_eq!(walk_symlink(b"relative/run", &none), b"relative/run".to_vec());
    assert_eq!(walk_symlink(b"", &none), b"".to_vec());

    let other = table(&[(b"/usr/bin/tool", b"/opt/tool")]);
    assert_eq!(walk_symlink(b"/usr/bin/other", &other), b"/usr/bin/other".to_vec());
}

#[test]
fn one_link_resolves_to_its_target() {
    let t = table(&[(b"/usr/bin/tool", b"/opt/tool/run")]);
    assert_eq!(walk_symlink(b"/usr/bin/tool", &t), b"/opt/tool/run".to_vec());
}

#[test]
fn a_chain_resolves_to_its_last_path() {
    let t = table(&[
        (b"/s1", b"/s2"),
        (b"/s2", b"/s3"),
        (b"/s3", b"/s4"),
        (b"/s4", b"/s5"),
    ]);
    assert_eq!(walk_symlink(b"/s1", &t), b"/s5".to_vec());
    assert_eq!(walk_symlink(b"/s3", &t), b"/s5".to_vec());
    assert_eq!(walk_symlink(b"/s5", &t), b"/s5".to_vec());
}

#[test]
fn relative_targets_are_read_from_the_directory_of_each_link() {
    let t = table(&[
        (b"/usr/bin/tool", b"../lib/tool/current"),
        (b"/usr/bin/../lib/tool/current", b"v2/run"),
        (b"/usr/bin/../lib/tool/v2/run", b"run.real"),
    ]);
    assert_eq!(
        walk_symlink(b"/usr/bin/tool", &t),
        b"/usr/bin/../lib/tool/v2/run.real".to_vec()
    );
}

#[test]
fn relative_links_stay_relative() {
    let t = table(&[(b"bin/tool", b"../impl/tool")]);
    assert_eq!(walk_symlink(b"bin/tool", &t), b"bin/../impl/tool".to_vec());
    let u = table(&[(b"tool", b"impl")]);
    assert_eq!(walk_symlink(b"tool", &u), b"impl".to_vec());
}

#[test]
fn the_walk_does_not_tidy_the_path_it_looks_up() {
    let t = table(&[(b"/a/b", b"c")]);
    assert_eq!(walk_symlink(b"/a//b", &t), b"/a//b".to_vec());
    assert_eq!(walk_symlink(b"/a/b/", &t), b"/a/b/".to_vec());
}

#[test]
fn the_walk_takes_bytes_that_are_no_text() {
    let t = table(&[(b"/\xff/link", b"\xfe\xfd")]);
    assert_eq!(walk_symlink(b"/\xff/link", &t), b"/\xff/\xfe\xfd".to_vec());
}

#[test]
fn resolving_again_changes_nothing() {
    let t = table(&[(b"/s1", b"d/s2"), (b"/d/s2", b"s3")]);
    let once = walk_symlink(b"/s1", &t);
    assert_eq!(once, b"/d/s3".to_vec());
    assert_eq!(walk_symlink(&once, &t), once);
}

#[test]
fn stepping_by_hand_agrees_with_the_walk() {
    let t = table(&[
        (b"/usr/local/bin/tool", b"../libexec/tool-impl/tool"),
        (b"/usr/local/bin/../libexec/tool-impl/tool", b"tool.bin"),
    ]);
    let mut current = b"/usr/local/bin/tool".to_vec();
    let mut hops = 0;
    let last = loop {
        let read = t.read_link(&current).map(|d| d.to_vec());
        match walk_step(current, read.as_deref()) {
            Walk::Follow(next) => {
                current = next;
                hops += 1;
            }
            Walk::Done(last) => break last,
        }
    };
    assert_eq!(hops, 2);
    assert_eq!(last, b"/usr/local/bin/../libexec/tool-impl/tool.bin".to_vec());
    assert_eq!(walk_symlink(b"/usr/local/bin/tool", &t), last);
}

#[test]
fn a_chain_without_links_has_an_end() {
    assert!(chain_has_end(b"/opt/app/bin/run.py", &LinkTable::new()));
    assert!(chain_has_end(b"/x", &table(&[(b"/a", b"/a")])));
}

#[test]
fn a_chain_of_links_to_a_file_has_an_end() {
    let t = table(&[(b"/s1", b"s2"), (b"/s2", b"s3"), (b"/s3", b"d/s4")]);
    assert!(chain_has_end(b"/s1", &t));
    assert!(chain_has_end(b"/s3", &t));
    assert!(chain_has_end(b"/d/s4", &t));
}

#[test]
fn a_link_to_itself_has_no_end() {
    let t = table(&[(b"/loop", b"loop")]);
    assert!(!chain_has_end(b"/loop", &t));
    let u = table(&[(b"/a/loop", b"/a/loop"), (b"/b", b"/c")]);
    assert!(!chain_has_end(b"/a/loop", &u));
    assert!(chain_has_end(b"/b", &u));
}

#[test]
fn links_to_each_other_have_no_end() {
    let t = table(&[(b"/a", b"/b"), (b"/b", b"/c"), (b"/c", b"/a"), (b"/in", b"/b")]);
    assert!(!chain_has_end(b"/a", &t));
    assert!(!chain_has_end(b"/c", &t));
    assert!(!chain_has_end(b"/in", &t));
}

#[test]
fn a_chain_through_every_link_of_the_table_has_an_end() {
    let mut t = LinkTable::new();
    for i in 0..200u32 {
        t.insert(
            format!("/chain/{}", i).into_bytes(),
            format!("{}", i + 1).into_bytes(),
        );
    }
    assert!(chain_has_end(b"/chain/0", &t));
    assert_eq!(walk_symlink(b"/chain/0", &t), b"/chain/200".to_vec());
}

#[test]
fn a_replaced_link_counts_once() {
    let mut t = table(&[(b"/a", b"/a"), (b"/b", b"/c")]);
    assert!(!chain_has_end(b"/a", &t));
    t.insert(b"/a".to_vec(), b"/b".to_vec());
    assert!(chain_has_end(b"/a", &t));
    assert_eq!(walk_symlink(b"/a", &t), b"/c".to_vec());
}
