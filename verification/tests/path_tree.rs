use webgal_lsp::path_tree::entry::Entry;
use webgal_lsp::path_tree::folder::Folder;
use webgal_lsp::path_tree::iter::{Iter, IterMut};
use webgal_lsp::path_tree::node::Node;
use webgal_lsp::path_tree::util::{ancestors_of, canonicalize, name_of, parent_of, split_path_once};

#[test]
fn canonicalize_examples() {
    assert_eq!(canonicalize("a\\b//c"), Some("a/b/c".to_string()));
    assert_eq!(canonicalize("./a/../b"), Some("b".to_string()));
    assert_eq!(canonicalize(".."), None);
    assert_eq!(canonicalize("a/"), Some("a".to_string()));
    assert_eq!(canonicalize("a/./b"), Some("a/b".to_string()));
    assert_eq!(canonicalize("a/../../"), None);
    assert_eq!(canonicalize(""), Some(String::new()));
}

#[test]
fn canonicalize_is_idempotent() {
    for path in ["a\\b//c", "./x/./y/../z", "/game/scene/../start.txt", "..a/b.", ""] {
        let once = canonicalize(path).unwrap();
        assert_eq!(canonicalize(&once), Some(once.clone()));
    }
}

#[test]
fn ancestors_of_examples() {
    let segments: Vec<_> = ancestors_of("a/b/c");
    assert_eq!(segments, vec!["a", "b", "c"]);
    let segments: Vec<_> = ancestors_of("a//b\\c/");
    assert_eq!(segments, vec!["a", "b", "c"]);
    assert_eq!(ancestors_of("").len(), 0);
    assert_eq!(ancestors_of("/").len(), 0);
}

#[test]
fn parent_of_examples() {
    assert_eq!(parent_of("a/b/c"), "a/b");
    assert_eq!(parent_of("a/b/c/"), "a/b");
    assert_eq!(parent_of("a\\b\\c"), "a\\b");
    assert_eq!(parent_of("a"), "");
    assert_eq!(parent_of(""), "");
    assert_eq!(parent_of("a/"), "");
    assert_eq!(parent_of("a//b"), "a");
}

#[test]
fn name_of_examples() {
    assert_eq!(name_of("a/b/c"), "c");
    assert_eq!(name_of("a/b/c/"), "c");
    assert_eq!(name_of("a\\b\\c"), "c");
    assert_eq!(name_of("a"), "a");
    assert_eq!(name_of(""), "");
    assert_eq!(name_of("a/"), "a");
}

#[test]
fn split_path_once_examples() {
    let (a, b) = split_path_once("a/b/c");
    assert_eq!(a, "a");
    assert_eq!(b, Some("b/c"));
    let (a, b) = split_path_once("file.txt");
    assert_eq!(a, "file.txt");
    assert_eq!(b, None);
    let (a, b) = split_path_once("");
    assert_eq!(a, "");
    assert_eq!(b, None);
    let (a, b) = split_path_once("a\\b");
    assert_eq!(a, "a");
    assert_eq!(b, Some("b"));
}

#[test]
fn with_ancestors_builds_a_chain() {
    let node = Node::with_ancestors("a/b", Node::Item(7));
    let folder = node.into_folder().unwrap();
    assert_eq!(folder.len(), 1);
    assert_eq!(folder.get("a/b").and_then(|n| n.as_item()), Some(&7));
    assert!(folder.get("a").unwrap().is_folder());
    assert!(folder.get("b").is_none());
    let same = Node::with_ancestors("", Node::Item(1));
    assert_eq!(same.into_item(), Some(1));
}

#[test]
fn folder_new_is_empty() {
    let folder: Folder<u32> = Folder::new();
    assert!(folder.is_empty());
    assert_eq!(folder.len(), 0);
    assert!(!folder.contains("a"));
    assert!(Folder::<u8>::with_capacity(4).is_empty());
}

#[test]
fn folder_insert_get_remove() {
    let mut folder: Folder<u32> = Folder::new();
    assert_eq!(folder.insert("game/scene/start.txt", Node::Item(1)), None);
    assert_eq!(folder.insert("game/scene/end.txt", Node::Item(2)), None);
    assert_eq!(folder.insert("game/config.txt", Node::Item(3)), None);
    assert_eq!(folder.len(), 1);
    assert!(folder.contains("game/scene"));
    assert_eq!(folder.get("game/scene/end.txt").and_then(|n| n.as_item()), Some(&2));
    assert!(folder.get("game/missing").is_none());
    assert!(folder.get("game/config.txt/x").is_none());

    // Replacing returns the previous node.
    let previous = folder.insert("game/config.txt", Node::Item(4));
    assert_eq!(previous.and_then(|n| n.into_item()), Some(3));

    // A path through an item changes nothing.
    assert!(folder.insert("game/config.txt/deeper", Node::Item(9)).is_none());
    assert_eq!(folder.get("game/config.txt").and_then(|n| n.as_item()), Some(&4));

    // Children come out sorted by name.
    let scene = folder.get("game/scene").unwrap().as_folder().unwrap();
    let names: Vec<&str> = scene.iter().into_iter().map(|(name, _)| name).collect();
    assert_eq!(names, vec!["end.txt", "start.txt"]);

    // Removing the last item of a folder removes the folder too.
    assert_eq!(folder.remove("game/scene/start.txt").and_then(|n| n.into_item()), Some(1));
    assert!(folder.contains("game/scene"));
    assert_eq!(folder.remove("game/scene/end.txt").and_then(|n| n.into_item()), Some(2));
    assert!(!folder.contains("game/scene"));
    assert!(folder.contains("game"));
    assert!(folder.remove("game/scene").is_none());
    assert_eq!(folder.remove("game/config.txt").and_then(|n| n.into_item()), Some(4));
    assert!(folder.is_empty());
}

#[test]
fn folder_clear_reserve_shrink_into_vec() {
    let mut folder: Folder<&str> = Folder::with_capacity(2);
    folder.insert("b", Node::Item("B"));
    folder.insert("a", Node::Item("A"));
    folder.reserve(10);
    folder.shrink_to_fit();
    let entries = folder.into_vec();
    assert_eq!(entries.len(), 2);
    assert_eq!(entries[0].0, "a");
    assert_eq!(entries[1].0, "b");
    let mut folder: Folder<u8> = Folder::new();
    folder.insert("x/y", Node::Item(0));
    folder.clear();
    assert!(folder.is_empty());
}

#[test]
fn folder_get_mut_changes_in_place() {
    let mut folder: Folder<u32> = Folder::new();
    folder.insert("a/b", Node::Item(1));
    if let Some(node) = folder.get_mut("a/b") {
        if let Some(item) = node.as_item_mut() {
            *item = 5;
        }
    }
    assert_eq!(folder.get("a/b").and_then(|n| n.as_item()), Some(&5));
    assert!(folder.get_mut("a/c").is_none());
    if let Some(node) = folder.get_mut("a") {
        if let Some(sub) = node.as_folder_mut() {
            sub.insert("c", Node::Item(6));
        }
    }
    assert_eq!(folder.get("a/c").and_then(|n| n.as_item()), Some(&6));
}

#[test]
fn folder_entry_occupied_vacant_and_blocked() {
    let mut folder: Folder<u32> = Folder::new();
    folder.insert("game/start.txt", Node::Item(1));

    // Vacant: inserting creates the missing folders and hands back the
    // node at the entry's path.
    match folder.entry("game/scene/a.txt") {
        Ok(Entry::Vacant(entry)) => {
            let node = entry.insert(Node::Item(2));
            assert_eq!(node.as_item(), Some(&2));
        }
        _ => panic!("the path is vacant"),
    }
    assert_eq!(folder.get("game/scene/a.txt").and_then(|n| n.as_item()), Some(&2));

    // Occupied: the node can be read, replaced and removed.
    match folder.entry("game/start.txt") {
        Ok(Entry::Occupied(mut entry)) => {
            assert_eq!(entry.get().as_item(), Some(&1));
            let old = entry.insert(Node::Item(3));
            assert_eq!(old.into_item(), Some(1));
            assert_eq!(entry.get_mut().as_item(), Some(&3));
            assert_eq!(entry.remove().into_item(), Some(3));
        }
        _ => panic!("the path is occupied"),
    }
    assert!(!folder.contains("game/start.txt"));

    // A path through an item reports that item and its path.
    folder.insert("game/config", Node::Item(9));
    match folder.entry("game/config/deeper/x") {
        Err((path, node)) => {
            assert_eq!(path, "game/config");
            assert_eq!(node.as_item(), Some(&9));
        }
        Ok(_) => panic!("the path runs through an item"),
    }

    // or_insert and insert_entry.
    let node = folder.entry("game/new").ok().unwrap().or_insert(Node::Item(7));
    assert_eq!(node.as_item(), Some(&7));
    let node = folder.entry("game/new").ok().unwrap().or_insert(Node::Item(8));
    assert_eq!(node.as_item(), Some(&7));
    let node = folder.entry("game/made").ok().unwrap().or_insert_with(|| Node::Item(10));
    assert_eq!(node.as_item(), Some(&10));
    let entry = folder.entry("game/new").ok().unwrap().insert_entry(Node::Item(11));
    assert_eq!(entry.into_mut().as_item(), Some(&11));
    let entry = folder.entry("other").ok().unwrap().insert_entry(Node::Item(12));
    assert_eq!(entry.get().as_item(), Some(&12));
    assert_eq!(folder.get("other").and_then(|n| n.as_item()), Some(&12));
}

#[test]
fn folder_walks_in_pre_order() {
    let mut folder: Folder<u32> = Folder::new();
    folder.insert("b/y", Node::Item(1));
    folder.insert("a", Node::Item(2));
    folder.insert("b/x/z", Node::Item(3));
    let mut iter = folder.iter_recursively();
    let mut paths = Vec::new();
    while let Some((path, node)) = iter.next() {
        paths.push((path, node.is_item()));
    }
    assert_eq!(
        paths,
        vec![
            ("a".to_string(), true),
            ("b".to_string(), false),
            ("b/x".to_string(), false),
            ("b/x/z".to_string(), true),
            ("b/y".to_string(), true),
        ]
    );
    assert_eq!(folder.len_recursively(), 5);
    assert_eq!(folder.len(), 2);
    let mut second = Iter::new(folder.get("b").unwrap().as_folder().unwrap());
    assert_eq!(second.next().map(|(p, _)| p), Some("x".to_string()));
}

#[test]
fn folder_recursive_capacity_and_clone() {
    let mut folder: Folder<String> = Folder::default();
    folder.insert("a/b/c", Node::Item("c".to_string()));
    folder.insert("a/d", Node::Item("d".to_string()));
    folder.reserve_recursively(8);
    folder.shrink_to_fit_recursively();
    assert_eq!(folder.len_recursively(), 4);
    let copy = folder.clone();
    assert_eq!(copy, folder);
    let node = Node::Folder(copy.clone());
    assert_eq!(node.clone(), node);
}

#[test]
fn entry_and_modify_changes_occupied_node_only() {
    let mut folder: Folder<u32> = Folder::new();
    folder.insert("game/start.txt", Node::Item(1));
    let node = folder
        .entry("game/start.txt")
        .ok()
        .unwrap()
        .and_modify(|node| {
            if let Some(value) = node.as_item_mut() {
                *value += 40;
            }
        })
        .or_insert(Node::Item(0));
    assert_eq!(node.as_item(), Some(&41));
    let node = folder
        .entry("game/fresh.txt")
        .ok()
        .unwrap()
        .and_modify(|node| {
            if let Some(value) = node.as_item_mut() {
                *value += 40;
            }
        })
        .or_insert(Node::Item(5));
    assert_eq!(node.as_item(), Some(&5));
    assert_eq!(folder.get("game/start.txt").and_then(|n| n.as_item()), Some(&41));
}

#[test]
fn folder_iter_mut_changes_children_in_place() {
    let mut folder: Folder<u32> = Folder::new();
    folder.insert("b", Node::Item(2));
    folder.insert("a", Node::Item(1));
    folder.insert("c/d", Node::Item(3));
    let mut names = Vec::new();
    for (name, node) in folder.iter_mut() {
        names.push(name.to_string());
        if let Some(value) = node.as_item_mut() {
            *value *= 10;
        }
    }
    assert_eq!(names, vec!["a", "b", "c"]);
    assert_eq!(folder.get("a").and_then(|n| n.as_item()), Some(&10));
    assert_eq!(folder.get("b").and_then(|n| n.as_item()), Some(&20));
    assert_eq!(folder.get("c/d").and_then(|n| n.as_item()), Some(&3));
}

#[test]
fn vacant_entry_hands_back_the_node_at_its_path() {
    let mut folder: Folder<u32> = Folder::new();
    match folder.entry("a/b/c") {
        Ok(Entry::Vacant(entry)) => {
            let node = entry.insert(Node::Item(1));
            assert_eq!(*node, Node::Item(1));
            *node = Node::Item(4);
        }
        _ => panic!("the path is vacant"),
    }
    assert_eq!(folder.get("a/b/c"), Some(&Node::Item(4)));
    assert_eq!(folder.len_recursively(), 3);

    match folder.entry("x/y") {
        Ok(Entry::Vacant(entry)) => {
            let mut occupied = entry.insert_entry(Node::Item(2));
            assert_eq!(occupied.get(), &Node::Item(2));
            assert_eq!(occupied.insert(Node::Item(5)), Node::Item(2));
        }
        _ => panic!("the path is vacant"),
    }
    assert_eq!(folder.get("x/y"), Some(&Node::Item(5)));

    let node = folder.entry("x/z/w").ok().unwrap().or_insert(Node::Item(6));
    assert_eq!(node.as_item(), Some(&6));
    assert_eq!(folder.len_recursively(), 7);
}

#[test]
fn canonical_path_is_parent_slash_name() {
    for path in ["game/scene/start.txt", "a/b", "x/y/z/w"] {
        let canonical = canonicalize(path).unwrap();
        assert_eq!(canonical, path);
        assert!(path.contains('/'));
        assert_eq!(format!("{}/{}", parent_of(path), name_of(path)), path);
    }
    assert_eq!(canonicalize("config.txt"), Some("config.txt".to_string()));
    assert_eq!(parent_of("config.txt"), "");
    assert_eq!(name_of("config.txt"), "config.txt");
}

#[test]
fn from_vec_keeps_first_of_each_path() {
    let folder: Folder<u32> = Folder::from_vec(vec![
        ("b/c".to_string(), 1),
        ("a".to_string(), 2),
        ("b/c".to_string(), 3),
        ("b/d/e".to_string(), 4),
        ("".to_string(), 5),
    ]);
    assert_eq!(folder.get("b/c"), Some(&Node::Item(1)));
    assert_eq!(folder.get("a"), Some(&Node::Item(2)));
    assert_eq!(folder.get("b/d/e"), Some(&Node::Item(4)));
    assert_eq!(folder.len(), 2);
    assert_eq!(folder.len_recursively(), 5);
    let names: Vec<&str> = folder.iter().iter().map(|(name, _)| *name).collect();
    assert_eq!(names, vec!["a", "b"]);
    let empty: Folder<u32> = Folder::from_vec(Vec::new());
    assert!(empty.is_empty());
}

#[test]
fn iter_mut_recursively_walks_in_pre_order_and_changes_nodes() {
    let mut folder: Folder<u32> = Folder::new();
    folder.insert("b/y", Node::Item(1));
    folder.insert("a", Node::Item(2));
    folder.insert("b/x/z", Node::Item(3));
    let mut paths = Vec::new();
    let mut iter = folder.iter_mut_recursively();
    while let Some((path, node)) = iter.next() {
        if let Some(value) = node.as_item_mut() {
            *value *= 10;
        }
        paths.push(path);
    }
    assert!(iter.next().is_none());
    assert_eq!(paths, vec!["a", "b", "b/x", "b/x/z", "b/y"]);
    assert_eq!(folder.get("b/x/z"), Some(&Node::Item(30)));
    assert_eq!(folder.get("a"), Some(&Node::Item(20)));
}

#[test]
fn iter_mut_goes_below_a_node_as_the_caller_left_it() {
    let mut folder: Folder<u32> = Folder::new();
    folder.insert("a/inner", Node::Item(1));
    folder.insert("b", Node::Item(2));
    let mut paths = Vec::new();
    let mut iter = IterMut::new(&mut folder);
    while let Some((path, node)) = iter.next() {
        if path == "a" {
            // The folder becomes an item: nothing below it is walked.
            *node = Node::Item(7);
        } else if path == "b" {
            // The item becomes a folder: its child is walked.
            *node = Node::Folder(Folder::single("c".to_string(), Node::Item(8)));
        }
        paths.push(path);
    }
    assert_eq!(paths, vec!["a", "b", "b/c"]);
    assert_eq!(folder.get("a"), Some(&Node::Item(7)));
    assert_eq!(folder.get("b/c"), Some(&Node::Item(8)));
    let mut empty: Folder<u32> = Folder::new();
    assert!(empty.iter_mut_recursively().next().is_none());
}
