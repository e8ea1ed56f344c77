use panorama::{default_file, default_generator, default_height, default_terrain_folder, default_width, AtmosphereDef, ColorPalette, GeneratorDef};

#[test]
fn default_output_options() {
    assert_eq!(default_terrain_folder(), "./terrain");
    assert_eq!(default_file(), "./output.png");
    assert_eq!(default_width(), 640);
    assert_eq!(default_height(), 480);
    assert!(matches!(default_generator(), GeneratorDef::Fast));
}

#[test]
fn default_palette_is_improved() {
    assert!(matches!(ColorPalette::default(), ColorPalette::Improved));
}

#[test]
fn atmosphere_definition_keeps_its_text() {
    let by_path = AtmosphereDef::Path("./atmosphere.yaml".to_string());
    match by_path {
        AtmosphereDef::Path(p) => assert_eq!(p, "./atmosphere.yaml"),
        AtmosphereDef::Definition(_) => panic!("expected a path"),
    }
    let inline = AtmosphereDef::Definition("temperature: 15".to_string());
    match inline {
        AtmosphereDef::Definition(d) => assert_eq!(d, "temperature: 15"),
        AtmosphereDef::Path(_) => panic!("expected a definition"),
    }
}
