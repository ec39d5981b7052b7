use crypto_journal::document::Document;
use crypto_journal::editor::Editor;
use crypto_journal::editor::EditorEvent;
use crypto_journal::editor::EditorKey;
use crypto_journal::editor::EditorMessage;
use crypto_journal::keychain::KeyChain;
use crypto_journal::store::LogStore;
use crypto_journal::store::StoreError;
use crypto_journal::worker::CryptoEditor;
use crypto_journal::worker::PersistenceWorker;
use crypto_journal::worker::WorkerStatus;

fn save(text: &str) -> EditorMessage {
    EditorMessage { event: EditorEvent::Save, message: text.to_string() }
}

fn exit() -> EditorMessage {
    EditorMessage { event: EditorEvent::Exit, message: String::new() }
}

#[test]
fn end_to_end_entry_lifecycle() {
    // create user "alice", write "hello\nworld" through the editor, persist
    // it, reopen it at index 0, and reject the wrong password
    let mut keys = KeyChain::new();
    keys.create_user("alice", "p@ss1").unwrap();
    assert!(keys.valid_auth("alice", "p@ss1"));

    let mut editor = Editor::new(Document::new());
    for c in "hello\nworld".chars() {
        assert!(editor.process_keypress(EditorKey::Char(c)).is_none());
    }
    let save_msg = editor.process_keypress(EditorKey::Save).unwrap();
    assert_eq!(save_msg.event, EditorEvent::Save);
    assert_eq!(save_msg.message, "hello\nworld\n");
    let exit_msg = editor.process_keypress(EditorKey::Quit).unwrap();
    assert_eq!(exit_msg.event, EditorEvent::Exit);
    assert!(editor.is_closing());

    let mut store = LogStore::new();
    let msgs = vec![save_msg, exit_msg];
    let st = CryptoEditor::create_log(&mut store, &keys, "01_01_2024", "alice", "p@ss1", &msgs);
    assert_eq!(st, WorkerStatus::Done);

    let bytes = store.get_date_log(&keys, "01_01_2024", "alice", "p@ss1", 0).unwrap();
    let reopened = Document::open_from_u8(bytes, "01_01_2024").unwrap();
    assert_eq!(reopened.to_string(), "hello\nworld\n");

    let denied = store.get_date_log(&keys, "01_01_2024", "alice", "wrong1", 0);
    assert_eq!(denied.unwrap_err(), StoreError::Crypto);
}

#[test]
fn rapid_saves_last_write_wins() {
    // Save("a"), Save("ab"), Save("abc"), Exit: the stored ciphertext
    // decrypts to exactly "abc"
    let mut keys = KeyChain::new();
    keys.create_user("a", "pw").unwrap();
    let mut store = LogStore::new();
    let msgs = vec![save("a"), save("ab"), save("abc"), exit()];
    let st = CryptoEditor::create_log(&mut store, &keys, "2_3_2024", "a", "pw", &msgs);
    assert_eq!(st, WorkerStatus::Done);
    assert_eq!(store.get_day_logs("a", "2024", "3", "2").unwrap().len(), 1);
    let pt = store.get_date_log(&keys, "2_3_2024", "a", "pw", 0).unwrap();
    assert_eq!(String::from_utf8(pt).unwrap(), "abc");
}

#[test]
fn exit_without_save_persists_nothing() {
    let mut keys = KeyChain::new();
    keys.create_user("a", "pw").unwrap();
    let mut store = LogStore::new();
    let st = CryptoEditor::create_log(&mut store, &keys, "2_3_2024", "a", "pw", &vec![exit()]);
    assert_eq!(st, WorkerStatus::Done);
    assert!(!store.has_logs("a"));
}

#[test]
fn editing_an_existing_entry_overwrites_its_index() {
    let mut keys = KeyChain::new();
    keys.create_user("a", "pw").unwrap();
    let mut store = LogStore::new();
    store.insert_log(&keys, "2_3_2024", "a", "old zero", "pw").unwrap();
    store.insert_log(&keys, "2_3_2024", "a", "old one", "pw").unwrap();
    let msgs = vec![save("new zero"), exit()];
    let st = CryptoEditor::edit_log(&mut store, &keys, "2_3_2024", "a", "pw", 0, &msgs);
    assert_eq!(st, WorkerStatus::Done);
    let read = |i: usize| {
        String::from_utf8(store.get_date_log(&keys, "2_3_2024", "a", "pw", i).unwrap()).unwrap()
    };
    assert_eq!(read(0), "new zero");
    assert_eq!(read(1), "old one");
}

#[test]
fn worker_reports_failure_instead_of_losing_it() {
    // an unknown user cannot encrypt: the worker ends early and says so
    let keys = KeyChain::new();
    let mut store = LogStore::new();
    let mut worker = PersistenceWorker::new_entry("2_3_2024", "ghost", "pw");
    let st = worker.run(&mut store, &keys, &vec![save("text"), exit()]);
    assert_eq!(st, WorkerStatus::Failed(StoreError::Crypto));
    let mut worker = PersistenceWorker::new_entry("not a date", "ghost", "pw");
    let st = worker.run(&mut store, &keys, &vec![save("text"), exit()]);
    assert_eq!(st, WorkerStatus::Failed(StoreError::InvalidDate));
}

#[test]
fn worker_waits_when_the_queue_runs_dry() {
    let mut keys = KeyChain::new();
    keys.create_user("a", "pw").unwrap();
    let mut store = LogStore::new();
    let mut worker = PersistenceWorker::new_entry("2_3_2024", "a", "pw");
    let st = worker.run(&mut store, &keys, &vec![save("text")]);
    assert_eq!(st, WorkerStatus::Waiting);
    // the save before the queue ran dry is applied
    let pt = store.get_date_log(&keys, "2_3_2024", "a", "pw", 0).unwrap();
    assert_eq!(String::from_utf8(pt).unwrap(), "text");
}

#[test]
fn editor_state_transitions() {
    let mut editor = Editor::new(Document::new());
    assert_eq!(editor.document().is_dirty(), false);
    editor.process_keypress(EditorKey::Char('x'));
    assert!(editor.document().is_dirty());
    let m = editor.process_keypress(EditorKey::Save).unwrap();
    assert_eq!(m.message, "x\n");
    assert!(!editor.document().is_dirty());
    assert!(!editor.is_closing());
    editor.process_keypress(EditorKey::Quit);
    assert!(editor.is_closing());
}

#[test]
fn editor_backspace_joins_rows() {
    let mut editor = Editor::new(Document::new());
    for c in "ab\ncd".chars() {
        editor.process_keypress(EditorKey::Char(c));
    }
    // cursor sits after "cd"; move to the start of the second row
    editor.process_keypress(EditorKey::Left);
    editor.process_keypress(EditorKey::Left);
    let m = editor.process_keypress(EditorKey::Backspace);
    assert!(m.is_none());
    let m = editor.process_keypress(EditorKey::Save).unwrap();
    assert_eq!(m.message, "abcd\n");
}

#[test]
fn editor_arrows_only_move_the_cursor() {
    let mut editor = Editor::new(Document::new());
    for c in "ab".chars() {
        editor.process_keypress(EditorKey::Char(c));
    }
    editor.process_keypress(EditorKey::Up);
    editor.process_keypress(EditorKey::Down);
    editor.process_keypress(EditorKey::Left);
    editor.process_keypress(EditorKey::Right);
    let m = editor.process_keypress(EditorKey::Save).unwrap();
    assert_eq!(m.message, "ab\n");
}
