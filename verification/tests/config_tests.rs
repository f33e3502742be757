use tickworld::audio::AudioModule;
use tickworld::audio::AudioSystem;
use tickworld::data::AudioRequest;
use tickworld::game::Game;

#[test]
fn empty_configuration_names_both_missing_fields() {
    let game = Game::new();
    match game.validate() {
        Err(msg) => assert_eq!(msg, "Game requires: size, title"),
        Ok(()) => panic!("an empty configuration must not validate"),
    }
}

#[test]
fn missing_size_is_named() {
    let mut game = Game::new();
    game.title("demo");
    match game.validate() {
        Err(msg) => assert_eq!(msg, "Game requires: size"),
        Ok(()) => panic!("a configuration without a size must not validate"),
    }
}

#[test]
fn missing_title_is_named() {
    let mut game = Game::new();
    game.size(800, 600);
    match game.validate() {
        Err(msg) => assert_eq!(msg, "Game requires: title"),
        Ok(()) => panic!("a configuration without a title must not validate"),
    }
}

#[test]
fn complete_configuration_validates() {
    let mut game = Game::new();
    game.title("demo");
    game.size(800, 600);
    game.accelerated();
    game.vsync();
    assert!(game.validate().is_ok());
    assert_eq!(game.window_title().map(|t| t.as_str()), Some("demo"));
    assert_eq!(game.window_size(), Some((800, 600)));
}

#[test]
fn audio_module_accepts_every_request() {
    let mut module = AudioModule::new();
    let batch = vec![AudioRequest::PlaySound(1), AudioRequest::PlaySound(2)];
    assert!(module.update(&batch).is_ok());
    assert!(module.handle_request(&AudioRequest::PlaySound(3)).is_ok());
}

#[test]
fn audio_system_accepts_every_request() {
    let mut system = AudioSystem::new();
    assert!(system.handle_request(&AudioRequest::PlaySound(9)).is_ok());
}
