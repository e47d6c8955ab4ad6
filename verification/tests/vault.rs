use std::cell::RefCell;

use calenpomo::error::AppError;
use calenpomo::vault::{
    RootKind, SkeletonReport, Vault, VaultConfig, CALENDAR_DIR, CONFIG_FILE, DEFAULT_CONFIG, INDEX_DIR, SCHEMA_VERSION,
    SESSIONS_DIR,
};

/// A vault directory held in memory: the subdirectories it has, the text of
/// its `config.toml`, and every directory that had to be made.
struct Tree {
    dirs: RefCell<Vec<String>>,
    config: RefCell<Option<String>>,
    made: RefCell<Vec<String>>,
}

impl Tree {
    fn empty() -> Tree {
        Tree { dirs: RefCell::new(Vec::new()), config: RefCell::new(None), made: RefCell::new(Vec::new()) }
    }

    fn open(&self, found: RootKind) -> Result<(Vault, SkeletonReport), AppError> {
        Vault::open(
            "/Users/someone/MyVault".to_string(),
            Ok(found),
            |name| {
                if name == CONFIG_FILE {
                    self.config.borrow().is_some()
                } else {
                    self.dirs.borrow().iter().any(|d| d == name)
                }
            },
            |name| {
                self.dirs.borrow_mut().push(name.to_string());
                self.made.borrow_mut().push(name.to_string());
                Ok(())
            },
            || {
                *self.config.borrow_mut() = Some(DEFAULT_CONFIG.to_string());
                Ok(())
            },
            |_| parse(self.config.borrow().as_deref().unwrap_or("")),
        )
    }
}

fn parse(text: &str) -> Result<VaultConfig, AppError> {
    let bad = |reason: String| AppError::TomlDecode { path: "/Users/someone/MyVault/config.toml".to_string(), reason };
    let v: toml::Value = toml::from_str(text).map_err(|e| bad(e.to_string()))?;
    match v.get("schema_version").and_then(|x| x.as_integer()) {
        Some(n) => Ok(VaultConfig { schema_version: n as u32 }),
        None => Err(bad("missing schema_version".to_string())),
    }
}

#[test]
fn opening_a_fresh_directory_builds_the_whole_skeleton() {
    let tree = Tree::empty();
    let (vault, report) = tree.open(RootKind::Directory).expect("open");
    assert_eq!(tree.made.borrow().clone(), vec![CALENDAR_DIR, SESSIONS_DIR, INDEX_DIR]);
    assert!(tree.config.borrow().is_some());
    assert_eq!(report.created, vec![CALENDAR_DIR, SESSIONS_DIR, INDEX_DIR, CONFIG_FILE]);
    assert_eq!(parse(DEFAULT_CONFIG).expect("config").schema_version, SCHEMA_VERSION);
    assert_eq!(vault.root(), "/Users/someone/MyVault");
}

#[test]
fn reopening_an_intact_vault_changes_nothing() {
    let tree = Tree::empty();
    tree.open(RootKind::Directory).expect("first open");
    *tree.config.borrow_mut() = Some(format!("{DEFAULT_CONFIG}hand_edited = true\n"));
    tree.made.borrow_mut().clear();
    let (_, report) = tree.open(RootKind::Directory).expect("second open");
    assert!(report.created.is_empty());
    assert!(tree.made.borrow().is_empty());
    assert!(tree.config.borrow().as_deref().unwrap_or("").contains("hand_edited = true"), "config was clobbered");
}

#[test]
fn deleting_the_index_directory_is_repaired_without_touching_user_data() {
    let tree = Tree::empty();
    tree.open(RootKind::Directory).expect("open");
    tree.dirs.borrow_mut().retain(|d| d != INDEX_DIR);
    tree.made.borrow_mut().clear();
    let (_, report) = tree.open(RootKind::Directory).expect("reopen");
    assert_eq!(report.created, vec![INDEX_DIR]);
    assert_eq!(tree.made.borrow().clone(), vec![INDEX_DIR], "nothing else is touched");
}

#[test]
fn a_vault_path_that_no_longer_exists_is_reported_not_recreated() {
    let tree = Tree::empty();
    let err = tree.open(RootKind::Missing).expect_err("should fail");
    assert!(matches!(err, AppError::VaultMissing(_)));
    assert!(tree.made.borrow().is_empty(), "the missing vault was silently created");
    assert!(tree.config.borrow().is_none());
}

#[test]
fn a_file_where_the_vault_should_be_is_rejected() {
    let tree = Tree::empty();
    let err = tree.open(RootKind::NotADirectory).expect_err("should fail");
    assert!(matches!(err, AppError::NotADirectory(_)));
}

#[test]
fn an_unparseable_config_is_reported_rather_than_overwritten() {
    let tree = Tree::empty();
    tree.open(RootKind::Directory).expect("open");
    *tree.config.borrow_mut() = Some("schema_version = [oops".to_string());
    let err = tree.open(RootKind::Directory).expect_err("should fail");
    assert!(matches!(err, AppError::TomlDecode { .. }));
    assert_eq!(tree.config.borrow().as_deref(), Some("schema_version = [oops"));
}

#[test]
fn a_directory_that_cannot_be_made_stops_the_rebuild() {
    let made = RefCell::new(Vec::new());
    let failed = Vault::open(
        "/v".to_string(),
        Ok(RootKind::Directory),
        |_| false,
        |name| {
            made.borrow_mut().push(name.to_string());
            if name == SESSIONS_DIR {
                Err(AppError::Io { path: "/v/sessions".to_string(), reason: "read-only file system".to_string() })
            } else {
                Ok(())
            }
        },
        || Ok(()),
        |_| Ok(VaultConfig { schema_version: 1 }),
    );
    assert!(matches!(failed, Err(AppError::Io { .. })));
    assert_eq!(made.into_inner(), vec![CALENDAR_DIR, SESSIONS_DIR], "nothing after the failure is tried");
}

#[test]
fn a_month_file_sits_under_the_vault_root_in_calendar() {
    let (vault, _) = Tree::empty().open(RootKind::Directory).expect("opens");
    assert_eq!(vault.calendar_file(2026, 7), "/Users/someone/MyVault/calendar/2026-07.ics");
    assert_eq!(vault.calendar_file(2026, 12), "/Users/someone/MyVault/calendar/2026-12.ics");
    assert_eq!(vault.sessions_file(2026, 7, 23), "/Users/someone/MyVault/sessions/2026-07-23.jsonl");
}
