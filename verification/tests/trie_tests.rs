use rdd_web::params::Params;
use rdd_web::trie::Node;
use rdd_web::utils::parse_pattern;

fn get_target_tree1() -> Node {
    let mut root = Node::new();
    let mut child1 = Node::new();
    child1.part = Some("user".to_string());
    let mut child11 = Node::new();
    child11.part = Some("index".to_string());
    child11.pattern = Some("/user/index".to_string());
    child1.children.push(child11);
    root.children.push(child1);
    root
}

#[test]
fn test_tree_node_build1() {
    let mut root = Node::new();
    let pattern = "/user/index";
    let parts = parse_pattern(pattern);
    root.insert(pattern, &parts, None, 0);
    let target = get_target_tree1();

    assert_eq!(&target, &root);
}

fn get_target_tree2() -> Node {
    let mut root = Node::new();
    let mut child1 = Node::new();
    child1.part = Some("hello".to_string());
    let mut child11 = Node::new();
    child11.part = Some(":name".to_string());
    child11.pattern = Some("/hello/:name".to_string());
    child11.is_wild = true;
    child1.children.push(child11);
    root.children.push(child1);
    root
}

#[test]
fn test_tree_node_build2() {
    let mut root = Node::new();
    let pattern = "/hello/:name";
    let parts = parse_pattern(pattern);
    root.insert(pattern, &parts, None, 0);
    let target = get_target_tree2();

    assert_eq!(&target, &root);
}

fn get_target_tree3() -> Node {
    let mut root = Node::new();
    let mut child1 = Node::new();
    child1.part = Some("static".to_string());
    let mut child11 = Node::new();
    child11.part = Some("*filepath".to_string());
    child11.pattern = Some("/static/*filepath".to_string());
    child11.is_wild = true;
    child1.children.push(child11);
    root.children.push(child1);
    root
}

#[test]
fn test_tree_node_build3() {
    let mut root = Node::new();
    let pattern = "/static/*filepath";
    let parts = parse_pattern(pattern);
    root.insert(pattern, &parts, None, 0);
    let target = get_target_tree3();

    assert_eq!(&target, &root);
}

#[test]
fn test_tree_node_search() {
    let mut root = Node::new();
    let pattern = "/user/index";
    let parts = parse_pattern(pattern);
    root.insert(pattern, &parts, None, 0);
    let path = "/user/index";
    let path_parts = parse_pattern(path);
    let info = Node::get_node_info_by_root_node(&root, &path_parts);
    let mut target = Node::new();
    target.part = Some("index".to_string());
    target.pattern = Some("/user/index".to_string());
    target.is_wild = false;
    let target_params = Params::new();

    assert_eq!(Some(&target), info.0);
    assert_eq!(target_params, info.1);
}

#[test]
fn test_tree_node_search_param_get() {
    let mut root = Node::new();
    let pattern = "/hello/:name";
    let parts = parse_pattern(pattern);
    root.insert(pattern, &parts, None, 0);
    let path = "/hello/zs";
    let path_parts = parse_pattern(path);
    let info = Node::get_node_info_by_root_node(&root, &path_parts);
    let mut target = Node::new();
    target.part = Some(":name".to_string());
    target.pattern = Some("/hello/:name".to_string());
    target.is_wild = true;
    let mut target_params = Params::new();
    target_params.insert("name".to_string(), "zs".to_string());

    assert_eq!(Some(&target), info.0);
    assert_eq!(target_params, info.1);
}

#[test]
fn test_tree_node_search_param_get2() {
    let mut root = Node::new();
    let pattern = "/static/*imagefile";
    let parts = parse_pattern(pattern);
    root.insert(pattern, &parts, None, 0);
    let path = "/static/image1.jpg";
    let path_parts = parse_pattern(path);
    let info = Node::get_node_info_by_root_node(&root, &path_parts);
    let mut target = Node::new();
    target.part = Some("*imagefile".to_string());
    target.pattern = Some("/static/*imagefile".to_string());
    target.is_wild = true;
    let mut target_params = Params::new();
    target_params.insert("imagefile".to_string(), "image1.jpg".to_string());

    assert_eq!(Some(&target), info.0);
    assert_eq!(target_params, info.1);
}

#[test]
fn test_tree_node_search_param_get3() {
    let mut root = Node::new();
    let pattern = "/static/*imagefile";
    let parts = parse_pattern(pattern);
    root.insert(pattern, &parts, None, 0);
    let path = "/static/user/image1.jpg";
    let path_parts = parse_pattern(path);
    let info = Node::get_node_info_by_root_node(&root, &path_parts);
    let mut target = Node::new();
    target.part = Some("*imagefile".to_string());
    target.pattern = Some("/static/*imagefile".to_string());
    target.is_wild = true;
    let mut target_params = Params::new();
    target_params.insert("imagefile".to_string(), "user/image1.jpg".to_string());

    assert_eq!(Some(&target), info.0);
    assert_eq!(target_params, info.1);
}
