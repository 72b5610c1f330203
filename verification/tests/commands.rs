use aw_tauri::commands::greet;

#[test]
fn greet_wraps_the_name_in_the_salutation() {
    assert_eq!(
        greet("Alice"),
        "Hello, Alice! You've been greeted from Rust!"
    );
    assert_eq!(greet(""), "Hello, ! You've been greeted from Rust!");
}
