use sound_registry::registry::Registry;
use sound_registry::supervisor::Supervisor;
use sound_registry::token::id;

struct Source {
    payload: String,
    position: [f32; 3],
    gain: f32,
}

impl Source {
    fn new(payload: &str) -> Source {
        Source { payload: payload.to_string(), position: [0.0, 0.0, 0.0], gain: 1.0 }
    }
}

#[test]
fn end_to_end_scenario() {
    let mut supervisor = Supervisor::new();
    let mut registry: Registry<Source> = Registry::new();

    supervisor.start(1_000);
    assert_eq!(registry.create(Source::new("a.ogg"), "s1".to_string()), "s1");
    if let Some(source) = registry.source_mut(&"s1".to_string()) {
        source.position = [1.0, 0.0, 0.0];
    }
    if let Some(source) = registry.source_mut(&"s1".to_string()) {
        source.gain = 0.8;
    }
    match registry.source_mut(&"s1".to_string()) {
        Some(source) => {
            assert_eq!(source.payload, "a.ogg");
            assert_eq!(source.position, [1.0, 0.0, 0.0]);
            assert_eq!(source.gain, 0.8);
        },
        None => panic!("the id is registered"),
    }
    assert_eq!(registry.list(), "[s1]");
    assert!(registry.destroy(&"s1".to_string()));
    assert_eq!(registry.list(), "[]");
}

#[test]
fn a_generated_id_passes_through_create() {
    let mut registry: Registry<Source> = Registry::new();
    let token = id();
    let echo = registry.create(Source::new("b.ogg"), token.clone());
    assert_eq!(echo, token);
    assert_eq!(registry.list(), format!("[{}]", token));
    assert!(registry.destroy(&echo));
}
