use dictation_polish::session::Session;

#[test]
fn uninitialized_session_passes_text_through() {
    let s = Session::new();
    assert!(!s.is_ready());
    assert_eq!(s.process("hello world"), "hello world");
}

#[test]
fn initialize_then_shutdown() {
    let mut s = Session::new();
    assert!(s.initialize("/data/model.gguf".to_string(), true));
    assert!(s.is_ready());
    assert_eq!(s.process("um hello world"), "Hello world.");
    s.shutdown();
    assert!(!s.is_ready());
    assert_eq!(s.process("hello world"), "hello world");
}

#[test]
fn missing_model_is_refused() {
    let mut s = Session::new();
    assert!(!s.initialize("/nowhere/model.gguf".to_string(), false));
    assert!(!s.is_ready());
    assert_eq!(s.process("hello world"), "hello world");
}

#[test]
fn missing_model_keeps_existing_session() {
    let mut s = Session::new();
    assert!(s.initialize("/data/model.gguf".to_string(), true));
    assert!(!s.initialize("/nowhere/model.gguf".to_string(), false));
    assert!(s.is_ready());
    assert_eq!(s.process("what time is it"), "What time is it?");
}

#[test]
fn shutdown_twice_is_harmless() {
    let mut s = Session::new();
    s.shutdown();
    s.shutdown();
    assert!(!s.is_ready());
}

#[test]
fn reinitialize_replaces_session() {
    let mut s = Session::new();
    assert!(s.initialize("/a.gguf".to_string(), true));
    assert!(s.initialize("/b.gguf".to_string(), true));
    assert!(s.is_ready());
}
