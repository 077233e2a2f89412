use std::path::PathBuf;

use winisland::plugin::manager::PluginManager;
use winisland::plugin::types::{
    ContentProvider, IslandContent, Plugin, PluginError, PluginMetadata, PluginType, Shortcut,
    ShortcutProvider,
};

struct FakePlugin {
    meta: PluginMetadata,
    kind: PluginType,
    clicks: u32,
    executed: Vec<String>,
}

fn fake(id: &str, kind: PluginType) -> FakePlugin {
    FakePlugin {
        meta: PluginMetadata {
            id: id.to_string(),
            name: format!("{} name", id),
            version: "1.0.0".to_string(),
            author: "tester".to_string(),
            description: String::new(),
        },
        kind,
        clicks: 0,
        executed: Vec::new(),
    }
}

impl Plugin for FakePlugin {
    fn spec_metadata(&self) -> PluginMetadata {
        PluginMetadata {
            id: self.meta.id.clone(),
            name: self.meta.name.clone(),
            version: self.meta.version.clone(),
            author: self.meta.author.clone(),
            description: self.meta.description.clone(),
        }
    }

    fn spec_kind(&self) -> PluginType {
        self.kind
    }

    fn metadata(&self) -> &PluginMetadata {
        &self.meta
    }

    fn plugin_type(&self) -> PluginType {
        self.kind
    }
}

impl ContentProvider for FakePlugin {
    fn get_content(&self) -> Option<IslandContent> {
        Some(IslandContent::Status {
            label: format!("Clicked {} times", self.clicks),
            value: String::new(),
            icon: None,
        })
    }

    fn on_click(&mut self) {
        self.clicks += 1;
    }

    fn on_expanded(&mut self, _expanded: bool) {}

    fn supports_expand(&self) -> bool {
        false
    }
}

impl ShortcutProvider for FakePlugin {
    fn get_shortcuts(&self) -> Vec<Shortcut> {
        vec![Shortcut {
            id: "open".to_string(),
            name: "Open".to_string(),
            description: String::new(),
            icon: None,
            hotkey: Some("Ctrl+O".to_string()),
        }]
    }

    fn execute(&mut self, shortcut_id: &str) -> Result<(), String> {
        self.executed.push(shortcut_id.to_string());
        Ok(())
    }
}

fn manager_with(plugins: Vec<FakePlugin>) -> PluginManager<FakePlugin> {
    let mut m = PluginManager::new(PathBuf::from("/tmp/plugins"));
    m.load_all(plugins.into_iter().map(Ok).collect());
    m
}

fn sample() -> PluginManager<FakePlugin> {
    manager_with(vec![
        fake("weather", PluginType::ContentProvider),
        fake("dark", PluginType::ThemeProvider),
        fake("launcher", PluginType::ShortcutProvider),
        fake("clock", PluginType::ContentProvider),
    ])
}

#[test]
fn new_manager_is_empty() {
    let m: PluginManager<FakePlugin> = PluginManager::new(PathBuf::from("/x/plugins"));
    assert_eq!(m.plugin_dir(), &PathBuf::from("/x/plugins"));
    assert!(m.list_content_providers().is_empty());
    assert!(m.list_theme_providers().is_empty());
    assert!(m.list_shortcut_providers().is_empty());
}

#[test]
fn lists_by_kind_in_load_order() {
    let m = sample();
    assert_eq!(m.list_content_providers(), vec!["weather".to_string(), "clock".to_string()]);
    assert_eq!(m.list_theme_providers(), vec!["dark".to_string()]);
    assert_eq!(m.list_shortcut_providers(), vec!["launcher".to_string()]);
}

#[test]
fn lists_partition_loaded_plugins() {
    let m = sample();
    let total = m.list_content_providers().len()
        + m.list_theme_providers().len()
        + m.list_shortcut_providers().len();
    assert_eq!(total, 4);
}

#[test]
fn load_all_skips_failures_and_appends() {
    let mut m = manager_with(vec![fake("a", PluginType::ContentProvider)]);
    m.load_all(vec![
        Err(PluginError::LoadFailed("broken.dll".to_string())),
        Ok(fake("b", PluginType::ContentProvider)),
        Err(PluginError::InvalidPlugin("x".to_string())),
        Ok(fake("c", PluginType::ThemeProvider)),
    ]);
    assert_eq!(m.list_content_providers(), vec!["a".to_string(), "b".to_string()]);
    assert_eq!(m.list_theme_providers(), vec!["c".to_string()]);
}

#[test]
fn unload_removes_plugin() {
    let mut m = sample();
    assert!(m.unload("weather").is_ok());
    assert_eq!(m.list_content_providers(), vec!["clock".to_string()]);
    assert_eq!(m.list_theme_providers(), vec!["dark".to_string()]);
}

#[test]
fn unload_unknown_is_not_found() {
    let mut m = sample();
    match m.unload("missing") {
        Err(PluginError::NotFound(id)) => assert_eq!(id, "missing"),
        other => panic!("unexpected {:?}", other),
    }
    assert_eq!(m.list_content_providers().len(), 2);
}

#[test]
fn unload_removes_only_first_duplicate() {
    let mut m = manager_with(vec![
        fake("dup", PluginType::ContentProvider),
        fake("dup", PluginType::ThemeProvider),
    ]);
    assert!(m.unload("dup").is_ok());
    assert!(m.list_content_providers().is_empty());
    assert_eq!(m.list_theme_providers(), vec!["dup".to_string()]);
    assert!(m.unload("dup").is_ok());
    assert!(matches!(m.unload("dup"), Err(PluginError::NotFound(_))));
}

#[test]
fn with_content_runs_closure() {
    let m = sample();
    let r = m.with_content("clock", |p| p.metadata().id.clone());
    assert_eq!(r.unwrap(), "clock");
}

#[test]
fn with_content_wrong_kind() {
    let m = sample();
    match m.with_content("dark", |_| ()) {
        Err(PluginError::InvalidPlugin(msg)) => {
            assert_eq!(msg, "Plugin 'dark' is not a ContentProvider")
        }
        other => panic!("unexpected {:?}", other),
    }
}

#[test]
fn with_content_not_found() {
    let m = sample();
    match m.with_content("nope", |_| ()) {
        Err(PluginError::NotFound(id)) => assert_eq!(id, "nope"),
        other => panic!("unexpected {:?}", other),
    }
}

#[test]
fn with_content_uses_first_plugin_with_id() {
    let m = manager_with(vec![
        fake("dup", PluginType::ThemeProvider),
        fake("dup", PluginType::ContentProvider),
    ]);
    assert!(matches!(m.with_content("dup", |_| ()), Err(PluginError::InvalidPlugin(_))));
    assert!(m.with_theme("dup", |_| ()).is_ok());
}

#[test]
fn with_content_mut_mutates_plugin() {
    let mut m = sample();
    assert!(m.with_content_mut("weather", |p| p.on_click()).is_ok());
    assert!(m.with_content_mut("weather", |p| p.on_click()).is_ok());
    let label = m.with_content("weather", |p| p.get_content()).unwrap();
    match label {
        Some(IslandContent::Status { label, .. }) => assert_eq!(label, "Clicked 2 times"),
        other => panic!("unexpected {:?}", other),
    }
    let other = m.with_content("clock", |p| p.clicks).unwrap();
    assert_eq!(other, 0);
}

#[test]
fn with_content_mut_wrong_kind_leaves_plugins() {
    let mut m = sample();
    match m.with_content_mut("launcher", |p| p.on_click()) {
        Err(PluginError::InvalidPlugin(msg)) => {
            assert_eq!(msg, "Plugin 'launcher' is not a ContentProvider")
        }
        other => panic!("unexpected {:?}", other),
    }
    assert_eq!(m.list_shortcut_providers(), vec!["launcher".to_string()]);
}

#[test]
fn with_theme_checks_kind() {
    let m = sample();
    assert_eq!(m.with_theme("dark", |p| p.metadata().name.clone()).unwrap(), "dark name");
    match m.with_theme("weather", |_| ()) {
        Err(PluginError::InvalidPlugin(msg)) => {
            assert_eq!(msg, "Plugin 'weather' is not a ThemeProvider")
        }
        other => panic!("unexpected {:?}", other),
    }
    assert!(matches!(m.with_theme("ghost", |_| ()), Err(PluginError::NotFound(_))));
}

#[test]
fn with_shortcut_mut_executes() {
    let mut m = sample();
    let r = m.with_shortcut_mut("launcher", |p| {
        let shortcuts = p.get_shortcuts();
        p.execute(&shortcuts[0].id)
    });
    assert_eq!(r.unwrap(), Ok(()));
    let executed = m.with_shortcut_mut("launcher", |p| p.executed.clone()).unwrap();
    assert_eq!(executed, vec!["open".to_string()]);
    match m.with_shortcut_mut("clock", |_| ()) {
        Err(PluginError::InvalidPlugin(msg)) => {
            assert_eq!(msg, "Plugin 'clock' is not a ShortcutProvider")
        }
        other => panic!("unexpected {:?}", other),
    }
    assert!(matches!(m.with_shortcut_mut("none", |_| ()), Err(PluginError::NotFound(_))));
}

#[test]
fn custom_content_carries_json() {
    let v = serde_json::Value::from(vec![1, 2, 3]);
    let c = IslandContent::Custom(v.clone());
    match c {
        IslandContent::Custom(inner) => assert_eq!(inner, v),
        _ => panic!("unexpected variant"),
    }
}

#[test]
fn lookup_agrees_with_lists() {
    let m = sample();
    assert!(m.with_content("weather", |_| ()).is_ok());
    assert!(m.list_content_providers().contains(&"weather".to_string()));
    assert!(matches!(m.with_content("nope", |_| ()), Err(PluginError::NotFound(_))));
    assert!(!m.list_content_providers().contains(&"nope".to_string()));
    assert!(!m.list_theme_providers().contains(&"nope".to_string()));
    assert!(!m.list_shortcut_providers().contains(&"nope".to_string()));
}

#[test]
fn lists_cover_every_loaded_id_once() {
    let m = manager_with(vec![
        fake("dup", PluginType::ContentProvider),
        fake("dup", PluginType::ShortcutProvider),
        fake("solo", PluginType::ThemeProvider),
    ]);
    let mut all: Vec<String> = m.list_content_providers();
    all.extend(m.list_theme_providers());
    all.extend(m.list_shortcut_providers());
    all.sort();
    assert_eq!(all, vec!["dup".to_string(), "dup".to_string(), "solo".to_string()]);
}

#[test]
fn mutable_access_keeps_ids_and_kinds() {
    let mut m = sample();
    assert!(m.with_content_mut("clock", |p| p.on_expanded(true)).is_ok());
    assert!(m.with_shortcut_mut("launcher", |p| p.execute("open")).is_ok());
    assert_eq!(m.list_content_providers(), vec!["weather".to_string(), "clock".to_string()]);
    assert_eq!(m.list_theme_providers(), vec!["dark".to_string()]);
    assert_eq!(m.list_shortcut_providers(), vec!["launcher".to_string()]);
}

#[test]
fn plugin_dir_never_changes() {
    let dir = PathBuf::from("/opt/island/plugins");
    let mut m: PluginManager<FakePlugin> = PluginManager::new(dir.clone());
    m.load_all(vec![Ok(fake("a", PluginType::ContentProvider)), Ok(fake("b", PluginType::ShortcutProvider))]);
    let _ = m.with_content_mut("a", |p| p.on_click());
    let _ = m.with_shortcut_mut("b", |p| p.execute("x"));
    let _ = m.unload("a");
    let _ = m.unload("missing");
    assert_eq!(m.plugin_dir(), &dir);
}
