use rbx_sync::plugin::{
    EitherPlugin, FileChangeResult, Plugin, PluginChain, TransformFileResult, TransformRbxResult,
};
use rbx_sync::plugins::default_plugin::DefaultPlugin;
use rbx_sync::rbx::{RbxItem, RbxValue};
use rbx_sync::route::Route;
use rbx_sync::vfs::VfsItem;

fn file(name: &str, contents: &str) -> VfsItem {
    VfsItem::File { name: name.to_string(), contents: contents.to_string() }
}

fn dir(name: &str, children: Vec<VfsItem>) -> VfsItem {
    VfsItem::Dir { name: name.to_string(), children }
}

fn route(segments: &[&str]) -> Route {
    Route::new(segments.iter().map(|s| s.to_string()).collect())
}

fn string_value(name: &str, contents: &str) -> RbxItem {
    RbxItem {
        name: name.to_string(),
        class_name: "StringValue".to_string(),
        children: Vec::new(),
        properties: vec![("Value".to_string(), RbxValue::String { value: contents.to_string() })],
    }
}

fn folder(name: &str, children: Vec<RbxItem>) -> RbxItem {
    RbxItem {
        name: name.to_string(),
        class_name: "Folder".to_string(),
        children,
        properties: Vec::new(),
    }
}

/// A plugin that is either a stand-in with fixed behaviour or the default
/// plugin, so that both can stand in one chain.
enum TestPlugin {
    /// Answers "nothing" for everything.
    Nothing,
    /// Passes on everything.
    Passing,
    /// Answers for files called `special`, passes on the rest.
    Special,
    Default(DefaultPlugin),
}

impl Plugin for TestPlugin {
    fn transform_file<F: Fn(&VfsItem) -> Option<RbxItem>>(
        &self,
        plugins: &F,
        vfs_item: &VfsItem,
    ) -> TransformFileResult {
        match self {
            TestPlugin::Nothing => TransformFileResult::Value(None),
            TestPlugin::Passing => TransformFileResult::Pass,
            TestPlugin::Special => match vfs_item {
                VfsItem::File { name, contents } if name == "special" => {
                    TransformFileResult::Value(Some(RbxItem {
                        name: name.clone(),
                        class_name: "Script".to_string(),
                        children: Vec::new(),
                        properties: vec![(
                            "Source".to_string(),
                            RbxValue::String { value: contents.clone() },
                        )],
                    }))
                }
                _ => TransformFileResult::Pass,
            },
            TestPlugin::Default(plugin) => plugin.transform_file(plugins, vfs_item),
        }
    }

    fn transform_rbx<F: Fn(&RbxItem) -> Option<VfsItem>>(
        &self,
        plugins: &F,
        rbx_item: &RbxItem,
    ) -> TransformRbxResult {
        match self {
            TestPlugin::Nothing => TransformRbxResult::Value(None),
            TestPlugin::Passing => TransformRbxResult::Pass,
            TestPlugin::Special => {
                if rbx_item.class_name == "Script" {
                    TransformRbxResult::Value(Some(file(&rbx_item.name, "script")))
                } else {
                    TransformRbxResult::Pass
                }
            }
            TestPlugin::Default(plugin) => plugin.transform_rbx(plugins, rbx_item),
        }
    }

    fn handle_file_change(&self, route: &Route) -> FileChangeResult {
        match self {
            TestPlugin::Nothing => FileChangeResult::MarkChanged(None),
            TestPlugin::Passing => FileChangeResult::Pass,
            TestPlugin::Special => FileChangeResult::Pass,
            TestPlugin::Default(plugin) => plugin.handle_file_change(route),
        }
    }
}

#[test]
fn empty_chain_returns_nothing() {
    let chain: PluginChain<DefaultPlugin> = PluginChain::new(Vec::new());
    assert_eq!(chain.len(), 0);
    assert_eq!(chain.transform_file(&file("x", "hello")), None);
    assert_eq!(chain.transform_file(&dir("d", vec![file("x", "hello")])), None);
    assert_eq!(chain.transform_rbx(&string_value("x", "hello")), None);
    assert_eq!(chain.transform_rbx(&folder("d", vec![])), None);
    assert_eq!(chain.handle_file_change(&route(&["a", "b"])), None);
}

#[test]
fn chain_of_passing_plugins_returns_nothing() {
    let chain = PluginChain::new(vec![TestPlugin::Passing, TestPlugin::Passing]);
    assert_eq!(chain.len(), 2);
    assert_eq!(chain.transform_file(&file("x", "hello")), None);
    assert_eq!(chain.transform_rbx(&string_value("x", "hello")), None);
    assert_eq!(chain.handle_file_change(&route(&["a"])), None);
}

#[test]
fn plugin_before_default_that_always_answers_wins() {
    let chain = PluginChain::new(vec![TestPlugin::Nothing, TestPlugin::Default(DefaultPlugin::new())]);
    assert_eq!(chain.transform_file(&file("x", "hello")), None);
    assert_eq!(chain.transform_file(&dir("d", vec![file("x", "hello")])), None);
    assert_eq!(chain.transform_rbx(&string_value("x", "hello")), None);
    assert_eq!(chain.handle_file_change(&route(&["a"])), None);
    let alone = PluginChain::new(vec![TestPlugin::Nothing]);
    assert_eq!(alone.transform_file(&file("x", "hello")), None);
    assert_eq!(alone.transform_rbx(&string_value("x", "hello")), None);
}

#[test]
fn passing_plugin_leaves_the_answer_to_the_next() {
    let chain = PluginChain::new(vec![TestPlugin::Passing, TestPlugin::Default(DefaultPlugin::new())]);
    assert_eq!(chain.transform_file(&file("x", "hello")), Some(string_value("x", "hello")));
    assert_eq!(chain.handle_file_change(&route(&["a"])), Some(vec![route(&["a"])]));
}

#[test]
fn specific_plugin_intercepts_a_nested_node() {
    let chain = PluginChain::new(vec![TestPlugin::Special, TestPlugin::Default(DefaultPlugin::new())]);
    let tree = dir("root", vec![file("plain", "p"), dir("sub", vec![file("special", "code")])]);
    let script = RbxItem {
        name: "special".to_string(),
        class_name: "Script".to_string(),
        children: Vec::new(),
        properties: vec![("Source".to_string(), RbxValue::String { value: "code".to_string() })],
    };
    let expected = folder("root", vec![string_value("plain", "p"), folder("sub", vec![script])]);
    assert_eq!(chain.transform_file(&tree), Some(expected));
}

#[test]
fn children_without_an_instance_are_left_out() {
    let chain = PluginChain::new(vec![TestPlugin::Special, TestPlugin::Nothing]);
    let tree = dir("root", vec![file("special", "a")]);
    assert_eq!(chain.transform_file(&tree), None);
    let rbx = folder("root", vec![string_value("x", "y")]);
    assert_eq!(chain.transform_rbx(&rbx), None);
}

#[test]
fn default_plugin_converts_file_to_string_value() {
    let chain = PluginChain::new(vec![DefaultPlugin::new()]);
    let item = chain.transform_file(&file("x", "hello")).unwrap();
    assert_eq!(item.class_name, "StringValue");
    assert_eq!(item.name, "x");
    assert_eq!(item.children.len(), 0);
    assert_eq!(item.properties.len(), 1);
    assert_eq!(
        item.property(&"Value".to_string()),
        Some(&RbxValue::String { value: "hello".to_string() })
    );
}

#[test]
fn default_plugin_converts_dir_to_folder() {
    let chain = PluginChain::new(vec![DefaultPlugin::new()]);
    let tree = dir("root", vec![file("b", "2"), dir("sub", vec![file("c", "3")]), file("a", "1")]);
    let expected = folder(
        "root",
        vec![
            string_value("b", "2"),
            folder("sub", vec![string_value("c", "3")]),
            string_value("a", "1"),
        ],
    );
    assert_eq!(chain.transform_file(&tree), Some(expected));
}

#[test]
fn default_plugin_converts_folder_to_dir() {
    let chain = PluginChain::new(vec![DefaultPlugin::new()]);
    let rbx = folder("root", vec![string_value("a", "1"), folder("sub", vec![])]);
    let expected = dir("root", vec![file("a", "1"), dir("sub", vec![])]);
    assert_eq!(chain.transform_rbx(&rbx), Some(expected));
}

#[test]
fn default_plugin_converts_other_instances_to_files() {
    let chain = PluginChain::new(vec![DefaultPlugin::new()]);
    assert_eq!(chain.transform_rbx(&string_value("x", "hello")), Some(file("x", "hello")));
    let part = RbxItem {
        name: "part".to_string(),
        class_name: "Part".to_string(),
        children: vec![string_value("inner", "lost")],
        properties: Vec::new(),
    };
    assert_eq!(chain.transform_rbx(&part), Some(file("part", "")));
    let flag = RbxItem {
        name: "flag".to_string(),
        class_name: "BoolValue".to_string(),
        children: Vec::new(),
        properties: vec![("Value".to_string(), RbxValue::Bool { value: true })],
    };
    assert_eq!(chain.transform_rbx(&flag), Some(file("flag", "")));
    let count = RbxItem {
        name: "count".to_string(),
        class_name: "IntValue".to_string(),
        children: Vec::new(),
        properties: vec![
            ("Other".to_string(), RbxValue::Int { value: 7 }),
            ("Value".to_string(), RbxValue::String { value: "seven".to_string() }),
        ],
    };
    assert_eq!(chain.transform_rbx(&count), Some(file("count", "seven")));
}

#[test]
fn folder_children_of_one_name_keep_the_last() {
    let chain = PluginChain::new(vec![DefaultPlugin::new()]);
    let rbx = folder(
        "root",
        vec![string_value("a", "first"), string_value("b", "other"), string_value("a", "second")],
    );
    let expected = dir("root", vec![file("a", "second"), file("b", "other")]);
    assert_eq!(chain.transform_rbx(&rbx), Some(expected));
}

#[test]
fn default_plugin_round_trips_a_tree() {
    let chain = PluginChain::new(vec![DefaultPlugin::new()]);
    let tree = dir(
        "root",
        vec![
            file("readme", "hello"),
            dir("src", vec![file("main", "fn main() {}"), dir("empty", vec![])]),
            file("", ""),
        ],
    );
    let rbx = chain.transform_file(&tree).unwrap();
    assert_eq!(chain.transform_rbx(&rbx), Some(tree));
}

#[test]
fn default_plugin_marks_the_route_itself() {
    let chain = PluginChain::new(vec![DefaultPlugin::new()]);
    assert_eq!(chain.handle_file_change(&route(&["a", "b"])), Some(vec![route(&["a", "b"])]));
    assert_eq!(chain.handle_file_change(&route(&[])), Some(vec![route(&[])]));
    let never = |_: &VfsItem| -> Option<RbxItem> { None };
    assert_eq!(
        DefaultPlugin::new().transform_file(&never, &dir("d", vec![file("x", "y")])),
        TransformFileResult::Value(Some(folder("d", vec![])))
    );
    assert_eq!(
        DefaultPlugin::new().handle_file_change(&route(&["x"])),
        FileChangeResult::MarkChanged(Some(vec![route(&["x"])]))
    );
}

#[test]
fn default_plugin_keeps_children_of_one_name_apart() {
    let chain = PluginChain::new(vec![DefaultPlugin::new()]);
    let tree = dir("root", vec![file("a", "first"), file("a", "second")]);
    let expected = folder("root", vec![string_value("a", "first"), string_value("a", "second")]);
    let rbx = chain.transform_file(&tree).unwrap();
    assert_eq!(rbx, expected);
    assert_eq!(chain.transform_rbx(&rbx), Some(dir("root", vec![file("a", "second")])));
}

#[test]
fn plugins_of_two_kinds_share_a_chain() {
    let chain: PluginChain<EitherPlugin<TestPlugin, DefaultPlugin>> = PluginChain::new(vec![
        EitherPlugin::First(TestPlugin::Special),
        EitherPlugin::Second(DefaultPlugin::new()),
    ]);
    let tree = dir("root", vec![file("special", "code"), file("plain", "p")]);
    let rbx = chain.transform_file(&tree).unwrap();
    assert_eq!(rbx.children.len(), 2);
    assert_eq!(rbx.children[0].class_name, "Script");
    assert_eq!(rbx.children[1], string_value("plain", "p"));
    assert_eq!(
        chain.transform_rbx(&rbx),
        Some(dir("root", vec![file("special", "script"), file("plain", "p")]))
    );
    assert_eq!(chain.handle_file_change(&route(&["q"])), Some(vec![route(&["q"])]));
    let hidden: PluginChain<EitherPlugin<TestPlugin, DefaultPlugin>> = PluginChain::new(vec![
        EitherPlugin::First(TestPlugin::Nothing),
        EitherPlugin::Second(DefaultPlugin::new()),
    ]);
    assert_eq!(hidden.transform_file(&tree), None);
    assert_eq!(hidden.handle_file_change(&route(&["q"])), None);
}
