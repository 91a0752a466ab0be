use bikeshed::name::{generate_group_name, generate_name, name_from_lowercase};
use bikeshed::tree::{get_attr, Tree};

#[test]
fn generate_name_slugs_text() {
    assert_eq!(generate_name("Foo Bar"), "foo-bar");
    assert_eq!(generate_name("foo()"), "foo");
    assert_eq!(generate_name("a/b, c(d)"), "a-b-c-d");
    assert_eq!(generate_name("Hello,   World!"), "hello-world");
    assert_eq!(generate_name("ÉCOLE"), "cole");
    assert_eq!(name_from_lowercase("Mixed Case"), "ixed-ase");
}

#[test]
fn generate_name_is_idempotent() {
    for t in ["Foo Bar()", "  spaced  out ", "x/y(z)", "Ünïcödé text", "already-a_name0"] {
        let once = generate_name(t);
        assert_eq!(generate_name(&once), once);
    }
}

#[test]
fn group_names() {
    assert_eq!(generate_group_name("Hello"), "he");
    assert_eq!(generate_group_name("-x"), "x_");
    assert_eq!(generate_group_name(""), "__");
    assert_eq!(generate_group_name("9 Lives"), "9l");
}

fn id_of(tree: &Tree, i: usize) -> Option<String> {
    get_attr(&tree.nodes[i].attrs, &"id".to_string())
}

#[test]
fn dedup_ids_relabels_repeats() {
    let mut tree = Tree::new();
    let root = tree.new_element("body".to_string(), None);
    let a = tree.new_element("dfn".to_string(), Some(root));
    let b = tree.new_element("dfn".to_string(), Some(root));
    let c = tree.new_element("h2".to_string(), Some(root));
    bikeshed::tree::insert_attr(&mut tree.nodes[a].attrs, "id".to_string(), "foo".to_string());
    bikeshed::tree::insert_attr(&mut tree.nodes[b].attrs, "id".to_string(), "foo".to_string());
    bikeshed::tree::insert_attr(&mut tree.nodes[c].attrs, "id".to_string(), "bar".to_string());
    tree.dedup_ids();
    assert_eq!(id_of(&tree, a).unwrap(), "foo");
    assert_eq!(id_of(&tree, b).unwrap(), "foo①");
    assert_eq!(id_of(&tree, c).unwrap(), "bar");
    assert_eq!(id_of(&tree, root), None);
    assert_eq!(tree.children[root], vec![a, b, c]);
}

#[test]
fn dedup_ids_counts_past_nine() {
    let mut tree = Tree::new();
    let mut ids = Vec::new();
    for _ in 0..12 {
        let n = tree.new_element("span".to_string(), None);
        bikeshed::tree::insert_attr(&mut tree.nodes[n].attrs, "id".to_string(), "x".to_string());
        ids.push(n);
    }
    tree.dedup_ids();
    assert_eq!(id_of(&tree, ids[0]).unwrap(), "x");
    assert_eq!(id_of(&tree, ids[2]).unwrap(), "x②");
    assert_eq!(id_of(&tree, ids[10]).unwrap(), "x①⓪");
    assert_eq!(id_of(&tree, ids[11]).unwrap(), "x①①");
}
