//! The application and its files: saving, opening, reloading, recovering.

use marqi::action::Action;
use marqi::app::files::{PathKind, ReadFile};
use marqi::app::{App, Effect};
use marqi::buffer::{fingerprint, DiskState, FilePath, TextBuffer};
use marqi::clipboard::Clipboard;
use marqi::config::{Config, Loaded};
use marqi::line_input::{Key, KeyCode};
use marqi::markdown::theme::{MarkdownTheme, ThemeName, ThemeVariant};
use marqi::session::RecentFile;

/// A disk in memory. Nothing can be written under `/missing`.
struct Disk {
    files: Vec<(String, String)>,
    recovery: Option<String>,
    settings: Vec<String>,
    opened: Vec<String>,
}

fn file_path(path: &str) -> FilePath {
    FilePath {
        full: path.to_owned(),
        file_name: path.rsplit('/').next().map(|name| name.to_owned()),
        key: path.to_owned(),
    }
}

impl Disk {
    fn new() -> Disk {
        Disk {
            files: Vec::new(),
            recovery: None,
            settings: Vec::new(),
            opened: Vec::new(),
        }
    }

    fn read(&self, path: &str) -> Option<&str> {
        self.files
            .iter()
            .find(|(p, _)| p == path)
            .map(|(_, text)| text.as_str())
    }

    fn write(&mut self, path: &str, text: &str) -> Result<DiskState, String> {
        if path.starts_with("/missing/") {
            return Err("no such directory".to_owned());
        }
        self.files.retain(|(p, _)| p != path);
        self.files.push((path.to_owned(), text.to_owned()));
        Ok(self.state(path))
    }

    fn state(&self, path: &str) -> DiskState {
        match self.read(path) {
            Some(text) => fingerprint(text.as_bytes(), text.len() as u64, Some(7)),
            None => DiskState::Missing,
        }
    }

    fn file(&self, path: &str) -> ReadFile {
        ReadFile {
            path: file_path(path),
            content: self
                .read(path)
                .map(|text| (text.to_owned(), self.state(path))),
        }
    }

    fn buffer(&self, path: &str) -> TextBuffer {
        let state = self.state(path);
        TextBuffer::from_path(file_path(path), self.read(path).map(|text| (text, state)))
    }

    fn settle(&mut self, a: &mut App, effect: Effect) {
        let own = a.editor.buffer().path().map(|p| p.to_owned());
        let own = own.unwrap_or_default();
        let next = match effect {
            Effect::Nothing | Effect::Copy(_) => return,
            Effect::Paste => return a.paste(None),
            Effect::CheckDisk => a.disk_checked(Ok(self.state(&own))),
            Effect::Write => {
                let result = self.write(&own, &a.editor.text());
                return a.written(result);
            }
            Effect::Reload => {
                let text = self.read(&own).unwrap().to_owned();
                return a.reloaded(Ok((text, self.state(&own))));
            }
            Effect::Probe(path) => {
                let kind = if path == "/tmp" {
                    PathKind::Directory
                } else if self.read(&path).is_some() {
                    PathKind::File
                } else {
                    PathKind::Missing
                };
                a.probed(file_path(&path), kind)
            }
            Effect::WriteAs(path) => {
                let result = self.write(&path.full, &a.editor.text());
                return a.written_as(path, result);
            }
            Effect::Open(path) => return a.file_read(Ok(self.file(&path))),
            Effect::OpenRecent(entry) => {
                let file = self.file(&entry.path);
                return a.recent_read(entry, Ok(file));
            }
            Effect::Rename(path) => {
                let text = self.read(&own).unwrap().to_owned();
                self.files.retain(|(p, _)| *p != own);
                let result = self.write(&path, &text);
                return a.renamed(file_path(&path), result);
            }
            Effect::Trash => {
                self.files.retain(|(p, _)| *p != own);
                return a.trashed(Ok(()));
            }
            Effect::DiscardRecovery => {
                self.recovery = None;
                return a.recovery_discarded(Ok(()));
            }
            Effect::OpenUrl(url) => {
                self.opened.push(url);
                return a.url_opened(Ok(()));
            }
            Effect::SaveSettings {
                path,
                keybindings,
                line_numbers,
                theme,
                variant,
            } => {
                self.settings = vec![path, keybindings, line_numbers, theme, variant];
                return a.settings_saved(Ok(()));
            }
            Effect::WriteRecovery => {
                self.recovery = Some(a.editor.text());
                a.recovery_written(Ok(()))
            }
            Effect::CheckDiskForAutoSave => a.auto_checked(Ok(self.state(&own))),
            Effect::AutoSave => {
                let result = self.write(&own, &a.editor.text());
                return a.auto_written(result);
            }
        };
        self.settle(a, next);
    }

    fn key(&mut self, a: &mut App, code: KeyCode, ctrl: bool, shift: bool) {
        let mut key = Key::plain(code);
        key.control = ctrl;
        key.shift = shift;
        let effect = a.handle_key(key);
        self.settle(a, effect);
    }

    fn press(&mut self, a: &mut App, code: KeyCode) {
        self.key(a, code, false, false);
    }

    fn ctrl(&mut self, a: &mut App, c: char) {
        self.key(a, KeyCode::Char(c), true, false);
    }

    fn type_str(&mut self, a: &mut App, s: &str) {
        for c in s.chars() {
            self.press(a, KeyCode::Char(c));
        }
    }

    fn run(&mut self, a: &mut App, action: Action) {
        let effect = a.run_action(action);
        self.settle(a, effect);
    }

    fn tick(&mut self, a: &mut App, now: u64) {
        let effect = a.tick(now);
        self.settle(a, effect);
    }
}

fn theme() -> MarkdownTheme {
    MarkdownTheme::named(ThemeName::Marqi, ThemeVariant::Dark, true)
}

fn app() -> App {
    let mut a = App::new(TextBuffer::empty(), theme(), true);
    a.set_viewport(20, 10);
    a
}

fn configured(buffer: TextBuffer, config: &Config) -> App {
    let mut a = App::with_config(buffer, config, ThemeVariant::Dark, true);
    a.clipboard = Clipboard::internal_only();
    a.set_viewport(40, 10);
    a
}

fn auto_saving() -> Config {
    let mut config = Config::default();
    config.editor.auto_save = true;
    config
}

#[test]
fn menu_can_save_defaults_to_the_active_config() {
    let mut disk = Disk::new();
    let mut found = Config::default();
    found.editor.keybindings = "standard".to_owned();
    found.editor.tab_width = 2;
    found.theme.name = "marqi".to_owned();
    found.theme.variant = "dark".to_owned();
    let (cfg, warning) =
        Config::load_from_arg_with_warning("/tmp/marqi.toml", true, Loaded::Parsed(found));
    assert!(warning.is_none());
    let mut a = configured(TextBuffer::empty(), &cfg);

    disk.ctrl(&mut a, 'g');
    disk.press(&mut a, KeyCode::Right);
    disk.press(&mut a, KeyCode::Down);
    disk.press(&mut a, KeyCode::Right);
    disk.press(&mut a, KeyCode::Down);
    disk.press(&mut a, KeyCode::Down);
    disk.press(&mut a, KeyCode::Right);
    disk.press(&mut a, KeyCode::Down);
    disk.press(&mut a, KeyCode::Enter);

    assert_eq!(disk.settings[0], "/tmp/marqi.toml");
    assert_eq!(disk.settings[1], "vim");
    assert_eq!(disk.settings[2], "absolute");
    assert_eq!(a.status.as_deref(), Some("Settings saved"));
}

#[test]
fn save_as_prompts_for_a_name_then_writes_atomically() {
    let mut disk = Disk::new();
    let mut a = app();
    disk.type_str(&mut a, "hello world");

    disk.ctrl(&mut a, 's');
    let pv = a
        .prompt_view()
        .expect("save opens a prompt for an unnamed buffer");
    assert!(
        pv.text.starts_with("Save as: .md"),
        "prompt text: {:?}",
        pv.text
    );
    assert_eq!(
        pv.cursor_col,
        Some("Save as: ".len() as u16),
        "cursor before .md"
    );

    for _ in 0..3 {
        disk.press(&mut a, KeyCode::Delete);
    }
    disk.type_str(&mut a, "/tmp/saveas.md");
    disk.press(&mut a, KeyCode::Enter);

    assert!(
        a.prompt_view().is_none(),
        "prompt closes after a successful save"
    );
    assert_eq!(disk.read("/tmp/saveas.md"), Some("hello world"));
    assert_eq!(a.editor.buffer().file_name(), "saveas.md");
}

#[test]
fn save_as_confirms_before_overwriting() {
    let mut disk = Disk::new();
    disk.write("/tmp/overwrite.md", "old").unwrap();

    let mut a = app();
    disk.type_str(&mut a, "new");
    disk.ctrl(&mut a, 's');
    for _ in 0..3 {
        disk.press(&mut a, KeyCode::Delete);
    }
    disk.type_str(&mut a, "/tmp/overwrite.md");
    disk.press(&mut a, KeyCode::Enter);

    assert!(a.prompt_view().unwrap().text.contains("Overwrite"));
    disk.press(&mut a, KeyCode::Char('n'));
    assert_eq!(disk.read("/tmp/overwrite.md"), Some("old"));
    assert!(a.prompt_view().is_some(), "n returns to the name prompt");

    disk.press(&mut a, KeyCode::Enter);
    disk.press(&mut a, KeyCode::Char('y'));
    assert_eq!(disk.read("/tmp/overwrite.md"), Some("new"));
    assert!(a.prompt_view().is_none());
}

#[test]
fn named_document_can_be_saved_as() {
    let mut disk = Disk::new();
    disk.write("/tmp/original.md", "text").unwrap();
    let mut a = configured(disk.buffer("/tmp/original.md"), &Config::default());
    disk.type_str(&mut a, "x");

    disk.key(&mut a, KeyCode::Char('s'), true, true);
    let prompt = a.prompt_view().expect("save as prompt");
    assert!(prompt.text.ends_with("/tmp/original.md"));
    disk.press(&mut a, KeyCode::Home);
    for _ in 0.."/tmp/original.md".len() {
        disk.press(&mut a, KeyCode::Delete);
    }
    disk.type_str(&mut a, "/tmp/copy.md");
    disk.press(&mut a, KeyCode::Enter);

    assert_eq!(disk.read("/tmp/original.md"), Some("text"));
    assert_eq!(disk.read("/tmp/copy.md"), Some("xtext"));
    assert_eq!(a.editor.buffer().path(), Some("/tmp/copy.md"));
}

#[test]
fn save_as_keeps_write_errors_visible() {
    let mut disk = Disk::new();
    let mut a = app();
    disk.type_str(&mut a, "draft");
    disk.ctrl(&mut a, 's');
    for _ in 0..3 {
        disk.press(&mut a, KeyCode::Delete);
    }
    disk.type_str(&mut a, "/missing/note.md");
    disk.press(&mut a, KeyCode::Enter);

    let prompt = a.prompt_view().expect("failed save keeps the prompt open");
    assert!(prompt.text.contains("Error:"), "prompt: {:?}", prompt.text);
    assert!(prompt.text.ends_with("/missing/note.md"));
}

#[test]
fn a_directory_is_no_place_to_save() {
    let mut disk = Disk::new();
    let mut a = app();
    disk.type_str(&mut a, "draft");
    disk.ctrl(&mut a, 's');
    for _ in 0..3 {
        disk.press(&mut a, KeyCode::Delete);
    }
    disk.type_str(&mut a, "/tmp");
    disk.press(&mut a, KeyCode::Enter);
    assert!(a.prompt_view().is_some());
    assert!(disk.files.is_empty());
    assert!(a.editor.buffer().modified());
}

#[test]
fn open_file_prompt_switches_documents() {
    let mut disk = Disk::new();
    disk.write("/tmp/open.md", "opened").unwrap();
    let mut a = app();

    disk.run(&mut a, Action::OpenFile);
    disk.type_str(&mut a, "/tmp/open.md");
    disk.press(&mut a, KeyCode::Enter);

    assert_eq!(a.editor.buffer().path(), Some("/tmp/open.md"));
    assert_eq!(a.editor.text(), "opened");
    assert!(a.prompt_view().is_none());
}

#[test]
fn rename_file_prompt_moves_the_current_file() {
    let mut disk = Disk::new();
    disk.write("/tmp/rename.md", "text").unwrap();
    let mut a = App::new(disk.buffer("/tmp/rename.md"), theme(), true);

    disk.run(&mut a, Action::RenameFile);
    disk.press(&mut a, KeyCode::Home);
    for _ in 0.."/tmp/rename.md".len() {
        disk.press(&mut a, KeyCode::Delete);
    }
    disk.type_str(&mut a, "/tmp/renamed.md");
    disk.press(&mut a, KeyCode::Enter);

    assert_eq!(disk.read("/tmp/rename.md"), None);
    assert_eq!(a.editor.buffer().path(), Some("/tmp/renamed.md"));
    assert_eq!(disk.read("/tmp/renamed.md"), Some("text"));
}

#[test]
fn trash_file_requires_confirmation() {
    let mut disk = Disk::new();
    disk.write("/tmp/trash.md", "text").unwrap();
    let mut a = App::new(disk.buffer("/tmp/trash.md"), theme(), true);

    disk.run(&mut a, Action::TrashFile);
    assert!(a.prompt_view().unwrap().text.contains("to trash"));
    disk.press(&mut a, KeyCode::Esc);

    assert_eq!(disk.read("/tmp/trash.md"), Some("text"));
    assert_eq!(a.editor.buffer().path(), Some("/tmp/trash.md"));
}

#[test]
fn auto_save_fires_after_the_idle_delay() {
    let mut disk = Disk::new();
    disk.write("/tmp/autosave.md", "x").unwrap();
    let mut a = configured(disk.buffer("/tmp/autosave.md"), &auto_saving());

    a.set_clock(10_000);
    disk.type_str(&mut a, "y");
    assert!(a.wants_tick());
    disk.tick(&mut a, 10_000);
    assert!(
        a.editor.buffer().modified(),
        "tick must not save mid-burst"
    );

    disk.tick(&mut a, 13_000);
    assert!(!a.editor.buffer().modified(), "idle tick saves");
    assert_eq!(disk.read("/tmp/autosave.md"), Some("yx"));
    assert_eq!(a.status.as_deref(), Some("Auto-saved"));
}

#[test]
fn auto_save_reports_failures_and_backs_off() {
    let mut disk = Disk::new();
    let mut a = configured(disk.buffer("/missing/note.md"), &auto_saving());

    disk.type_str(&mut a, "draft");
    disk.tick(&mut a, 3_000);

    assert!(a.editor.buffer().modified());
    assert!(a
        .status
        .as_deref()
        .is_some_and(|status| status.starts_with("Auto-save failed:")));
    assert!(a.editor.retry_at().is_some_and(|retry| retry > 3_000));
}

#[test]
fn manual_save_offers_to_reload_an_external_change() {
    let mut disk = Disk::new();
    disk.write("/tmp/conflict.md", "original").unwrap();
    let mut a = configured(disk.buffer("/tmp/conflict.md"), &Config::default());
    disk.type_str(&mut a, "local ");
    disk.write("/tmp/conflict.md", "external").unwrap();

    disk.ctrl(&mut a, 's');
    assert!(a.prompt_view().unwrap().text.contains("changed on disk"));
    disk.press(&mut a, KeyCode::Char('r'));

    assert_eq!(a.editor.text(), "external");
    assert!(!a.editor.buffer().modified());
    assert_eq!(a.status.as_deref(), Some("Reloaded"));
}

#[test]
fn reload_snaps_the_cursor_to_a_char_boundary() {
    let mut disk = Disk::new();
    disk.write("/tmp/snap.md", "abcd").unwrap();
    let mut a = configured(disk.buffer("/tmp/snap.md"), &Config::default());
    disk.press(&mut a, KeyCode::Right);
    disk.press(&mut a, KeyCode::Right);
    disk.type_str(&mut a, "x");
    disk.press(&mut a, KeyCode::Left);
    disk.write("/tmp/snap.md", "aé").unwrap();

    disk.ctrl(&mut a, 's');
    disk.press(&mut a, KeyCode::Char('r'));

    assert_eq!(a.editor.text(), "aé");
    assert_eq!(a.editor.cursor().byte, 1);
    disk.press(&mut a, KeyCode::Right);
    assert_eq!(a.editor.cursor().byte, 3);
}

#[test]
fn autosave_never_overwrites_an_external_change() {
    let mut disk = Disk::new();
    disk.write("/tmp/both.md", "original").unwrap();
    let mut a = configured(disk.buffer("/tmp/both.md"), &auto_saving());
    disk.type_str(&mut a, "local ");
    disk.write("/tmp/both.md", "external").unwrap();

    disk.tick(&mut a, 3_000);

    assert_eq!(disk.read("/tmp/both.md"), Some("external"));
    assert!(a.editor.buffer().modified());
    assert_eq!(
        a.status.as_deref(),
        Some("Auto-save paused: file changed on disk")
    );
}

#[test]
fn recovery_restores_an_unsaved_document() {
    let mut disk = Disk::new();
    disk.write("/tmp/recovery.md", "original").unwrap();
    let mut edited = configured(disk.buffer("/tmp/recovery.md"), &Config::default());
    disk.type_str(&mut edited, "local ");
    disk.tick(&mut edited, 3_000);

    let mut reopened = configured(disk.buffer("/tmp/recovery.md"), &Config::default());
    let found = disk.recovery.clone();
    reopened.offer_recovery(Ok(found));
    assert!(reopened
        .prompt_view()
        .unwrap()
        .text
        .contains("recovery found"));
    disk.press(&mut reopened, KeyCode::Char('r'));

    assert_eq!(reopened.editor.text(), "local original");
    assert!(reopened.editor.buffer().modified());
    assert_eq!(reopened.status.as_deref(), Some("Recovery restored"));
}

#[test]
fn recent_entry_restores_file_and_cursor() {
    let mut disk = Disk::new();
    disk.write("/tmp/first.md", "first").unwrap();
    disk.write("/tmp/second.md", "second").unwrap();
    let mut a = configured(disk.buffer("/tmp/first.md"), &Config::default());
    let entry = RecentFile {
        path: "/tmp/second.md".to_owned(),
        cursor: 3,
        focus_scroll: 0,
        raw_scroll: 0,
        read_scroll: 0,
    };
    let file = disk.file(&entry.path);
    a.recent_read(entry, Ok(file));
    assert_eq!(a.editor.text(), "second");
    assert_eq!(a.editor.cursor().byte, 3);
}

#[test]
fn a_failed_write_leaves_the_document_modified() {
    let mut disk = Disk::new();
    let mut a = configured(disk.buffer("/missing/note.md"), &Config::default());
    disk.type_str(&mut a, "draft");
    disk.ctrl(&mut a, 's');
    assert!(a.editor.buffer().modified());
    assert_eq!(a.editor.text(), "draft");
    assert!(a
        .status
        .as_deref()
        .is_some_and(|status| status.contains("no such directory")));
}

#[test]
fn an_external_address_is_opened_after_a_yes() {
    let mut disk = Disk::new();
    let mut a = App::new(
        TextBuffer::scratch("[site](https://example.com)", "test.md"),
        theme(),
        true,
    );
    a.editor.place_cursor(2);
    disk.run(&mut a, Action::FollowLink);
    disk.press(&mut a, KeyCode::Char('y'));
    assert_eq!(disk.opened, ["https://example.com"]);
}

#[test]
fn failed_save_as_keeps_the_buffer_unnamed() {
    let mut disk = Disk::new();
    let mut a = App::new(TextBuffer::scratch("text", "[stdin]"), theme(), true);
    disk.ctrl(&mut a, 's');
    for _ in 0..3 {
        disk.press(&mut a, KeyCode::Delete);
    }
    disk.type_str(&mut a, "/missing/sub/notes.md");
    disk.press(&mut a, KeyCode::Enter);
    assert!(
        !a.editor.buffer().has_path(),
        "a failed save-as must not bind the path"
    );
    assert_eq!(a.editor.buffer().file_name(), "[stdin]");
}
