use vaultura::clipboard::ClipboardManager;
use vaultura::config::AppConfig;
use vaultura::lock_screen::{LockScreen, LockSubmit};
use vaultura::password_generator_modal::PasswordGeneratorModal;

#[test]
fn test_default_config() {
    let config = AppConfig::default();
    assert_eq!(config.auto_lock_secs, 300);
    assert_eq!(config.clipboard_clear_secs, 30);
    assert_eq!(config.kdf_memory_cost_kib, 65536);
}

#[test]
fn test_kdf_params_from_config() {
    let config = AppConfig::default();
    let params = config.kdf_params();
    assert_eq!(params.memory_cost_kib, 65536);
    assert_eq!(params.time_cost, 3);
    assert_eq!(params.parallelism, 4);
}

#[test]
fn test_clipboard_generation_last_write_wins() {
    let mut cm = ClipboardManager::new(30);
    assert_eq!(cm.clear_seconds(), 30);
    let g1 = cm.next_generation();
    assert!(cm.should_clear(g1));
    let g2 = cm.next_generation();
    assert!(!cm.should_clear(g1));
    assert!(cm.should_clear(g2));
}

#[test]
fn test_lock_screen_submit_empty_sets_error() {
    let mut screen = LockScreen::new(true);
    let action = screen.submit();
    assert!(matches!(action, LockSubmit::EmptyPassword));
    assert!(screen.error_message().is_some());
}

#[test]
fn test_lock_screen_submit_routes_on_vault_existence() {
    let mut screen = LockScreen::new(true);
    screen.push_char('p');
    screen.push_char('w');
    match screen.submit() {
        LockSubmit::UnlockVault(pw) => assert_eq!(pw, "pw"),
        _ => panic!("expected an unlock request"),
    }

    let mut screen = LockScreen::new(false);
    screen.push_char('p');
    match screen.submit() {
        LockSubmit::CreateVault(pw) => assert_eq!(pw, "p"),
        _ => panic!("expected a create request"),
    }
}

#[test]
fn test_lock_screen_editing() {
    let mut screen = LockScreen::new(false);
    screen.push_char('a');
    screen.push_char('b');
    assert_eq!(screen.input_len(), 2);
    screen.pop_char();
    assert_eq!(screen.input_len(), 1);
    screen.clear();
    assert_eq!(screen.input_len(), 0);
    screen.set_vault_exists(true);
    assert!(screen.vault_exists());
}

#[test]
fn test_password_modal_navigation_and_length() {
    let mut modal = PasswordGeneratorModal::new();
    assert_eq!(modal.current_option(), 0);
    assert_eq!(modal.generated_password().chars().count(), 20);

    modal.next_option();
    assert_eq!(modal.current_option(), 1);
    modal.prev_option();
    assert_eq!(modal.current_option(), 0);
    modal.prev_option();
    assert_eq!(modal.current_option(), 5);
    modal.next_option();
    assert_eq!(modal.current_option(), 0);

    modal.increase_length();
    assert_eq!(modal.config().length, 21);
    assert_eq!(modal.generated_password().chars().count(), 21);
    modal.decrease_length();
    assert_eq!(modal.config().length, 20);
    assert_eq!(modal.generated_password().chars().count(), 20);
}

#[test]
fn test_password_modal_toggle_regenerates_to_config() {
    let mut modal = PasswordGeneratorModal::new();
    modal.next_option(); // uppercase row
    modal.toggle_current();
    assert!(!modal.config().uppercase);
    let pw: String = modal.generated_password().to_string();
    assert!(pw.chars().all(|c| !c.is_ascii_uppercase()));
    modal.regenerate();
    assert_eq!(modal.generated_password().chars().count(), 20);
}
