use codehunt::manifest::{
    gift_manifest, gift_manifest_checked, manifest_from_toml, manifest_from_toml_table,
    manifest_from_yaml, manifest_ready, MapsErrorResponse,
};
use codehunt::tomldoc::TomlValue;
use codehunt::toml_manifest;
use codehunt::yaml::YamlValue;

fn toml_reply(text: &str) -> Result<String, MapsErrorResponse> {
    manifest_from_toml(text)
}

fn yaml_reply(text: &str) -> Result<String, MapsErrorResponse> {
    assert!(manifest_ready(text));
    gift_manifest(text)
}

fn a(s: &str) -> Result<String, MapsErrorResponse> {
    Err(MapsErrorResponse::A(s.to_string()))
}

fn b(s: &str) -> Result<String, MapsErrorResponse> {
    Err(MapsErrorResponse::B(s.to_string()))
}

const GOOD_TOML: &str = r#"
[package]
name = "not-a-gift-order"
authors = ["Not Santa"]
keywords = ["Christmas 2024"]

[[package.metadata.orders]]
item = "Toy car"
quantity = 2

[[package.metadata.orders]]
item = "Lego brick"
quantity = 230
"#;

#[test]
fn toml_lists_orders() {
    assert_eq!(toml_reply(GOOD_TOML), Ok("Toy car: 2\nLego brick: 230".to_string()));
}

#[test]
fn toml_skips_zero_and_float_quantities() {
    let text = r#"
[package]
keywords = ["Christmas 2024"]
[[package.metadata.orders]]
item = "Nothing"
quantity = 0
[[package.metadata.orders]]
item = "Half"
quantity = 0.5
[[package.metadata.orders]]
item = "Sled"
quantity = 1
[[package.metadata.orders]]
item = "Bell"
"#;
    assert_eq!(toml_reply(text), Ok("Sled: 1".to_string()));
    assert_eq!(
        toml_reply("[package]\nkeywords = [\"Christmas 2024\"]\n[[package.metadata.orders]]\nitem = \"x\"\nquantity = 0\n"),
        Ok(String::new())
    );
}

#[test]
fn toml_invalid_text() {
    assert_eq!(toml_reply("this is = = not toml"), b("Invalid TOML format"));
}

#[test]
fn toml_orders_noted_marker() {
    let text = "[package]\nkeywords = [\"Christmas 2024\"]\npackage.metadata.orders = []\n";
    assert_eq!(toml_reply(text), a("orders noted"));
}

#[test]
fn toml_missing_package() {
    assert_eq!(toml_reply("[other]\nx = 1\n"), b("missing package section"));
}

#[test]
fn toml_missing_keyword() {
    let text = "[package]\nname = \"x\"\n[package.metadata]\norders = []\n";
    assert_eq!(toml_reply(text), b("Magic keyword not provided"));
    let wrong = "[package]\nkeywords = [\"Easter\"]\n[[package.metadata.orders]]\nitem = \"a\"\nquantity = 1\n";
    assert_eq!(toml_reply(wrong), b("Magic keyword not provided"));
}

#[test]
fn toml_chig_bungus_and_resolver() {
    let ok = "[package]\nname = \"chig-bungus\"\n[workspace]\nresolver = \"1\"\n[[package.metadata.orders]]\nitem = \"a\"\nquantity = 3\n";
    assert_eq!(toml_reply(ok), Ok("a: 3".to_string()));
    let two = "[package]\nname = \"chig-bungus\"\n[workspace]\nresolver = 2\n[[package.metadata.orders]]\nitem = \"a\"\nquantity = 3\n";
    assert_eq!(toml_reply(two), b("Magic keyword not provided"));
    let two_str = "[package]\nname = \"chig-bungus\"\n[workspace]\nresolver = \"2\"\n";
    assert_eq!(toml_reply(two_str), b("Magic keyword not provided"));
}

#[test]
fn toml_metadata_and_orders_errors() {
    let head = "[package]\nkeywords = [\"Christmas 2024\"]\n";
    assert_eq!(toml_reply(head), b("Invalid manifest"));
    assert_eq!(toml_reply(&format!("{head}[package.metadata]\nstuff = 1\n")), a("no orders but there is stuff"));
    assert_eq!(toml_reply(&format!("{head}[package.metadata]\nother = 1\n")), b("orders is missing"));
    assert_eq!(toml_reply(&format!("{head}[package.metadata]\norders = []\n")), a("orders array is empty"));
    assert_eq!(toml_reply(&format!("{head}[package.metadata]\norders = 5\n")), b("orders is not valid"));
}

#[test]
fn toml_order_errors() {
    let head = "[package]\nkeywords = [\"Christmas 2024\"]\n[package.metadata]\n";
    assert_eq!(toml_reply(&format!("{head}orders = [{{ item = \"a\", quantity = \"2\" }}]\n")), a("invalid quantity"));
    assert_eq!(toml_reply(&format!("{head}orders = [{{ item = \"a\", quantity = true }}]\n")), b("invalid quantity"));
    assert_eq!(toml_reply(&format!("{head}orders = [{{ quantity = 2 }}]\n")), a("Invalid item in order"));
    assert_eq!(toml_reply(&format!("{head}orders = [{{ item = \"a\", quantity = -2 }}]\n")), a("invalid quantity type"));
    assert_eq!(toml_reply(&format!("{head}orders = [1]\n")), a("Invalid order format"));
    assert_eq!(
        toml_reply(&format!("{head}orders = [{{ item = \"a\", quantity = 1 }}, 1]\n")),
        a("Invalid order format")
    );
}

const GOOD_YAML: &str = "package:\n  name: x\n  keywords:\n    - Christmas 2024\n  metadata:\n    orders:\n      - item: Toy car\n        quantity: 2\n      - item: Lego brick\n        quantity: 230\n      - item: Nothing\n        quantity: 0\n      - quantity: 4\n";

#[test]
fn yaml_lists_orders() {
    assert_eq!(yaml_reply(GOOD_YAML), Ok("Toy car: 2\nLego brick: 230\nnull: 4".to_string()));
}

#[test]
fn yaml_keyword_checks() {
    assert_eq!(yaml_reply("package:\n  name: x\n"), b("Magic keyword not provided"));
    assert_eq!(
        yaml_reply("package:\n  keywords: [Christmas 2024, Easter]\n"),
        b("Magic keyword not provided")
    );
    assert_eq!(yaml_reply("package:\n  keywords: anything\n"), Ok(String::new()));
}

#[test]
fn yaml_rust_version_true() {
    assert_eq!(
        yaml_reply("package:\n  keywords: [Christmas 2024]\n  rust-version: true\n"),
        b("Invalid manifest")
    );
    assert_eq!(
        yaml_reply("package:\n  keywords: [Christmas 2024]\n  rust-version: \"1.80\"\n"),
        Ok(String::new())
    );
    assert_eq!(
        yaml_reply("package:\n  keywords: !kw [!s Christmas 2024]\n"),
        Ok(String::new())
    );
}

#[test]
fn yaml_tagged_keyword_reads_through_tag() {
    let doc = YamlValue::Mapping(vec![(
        YamlValue::String("package".to_string()),
        YamlValue::Mapping(vec![(
            YamlValue::String("keywords".to_string()),
            YamlValue::Tagged(
                "!list".to_string(),
                Box::new(YamlValue::Sequence(vec![YamlValue::Tagged(
                    "!s".to_string(),
                    Box::new(YamlValue::String("Christmas 2024".to_string())),
                )])),
            ),
        )]),
    )]);
    assert_eq!(manifest_from_yaml(&doc), Ok(String::new()));
}

#[test]
fn gift_manifest_prefers_yaml() {
    assert_eq!(
        gift_manifest_checked(GOOD_YAML),
        Some(Ok("Toy car: 2\nLego brick: 230\nnull: 4".to_string()))
    );
}

#[test]
fn gift_manifest_falls_back_to_toml() {
    assert!(manifest_ready(GOOD_TOML));
    assert_eq!(gift_manifest(GOOD_TOML), Ok("Toy car: 2\nLego brick: 230".to_string()));
}

#[test]
fn gift_manifest_json_has_no_reply() {
    let text = "{\"a\": 1, \"a\": 2}";
    assert!(!manifest_ready(text));
    assert_eq!(gift_manifest_checked(text), None);
}

#[test]
fn gift_manifest_yaml_without_package_has_no_reply() {
    assert!(!manifest_ready("name: x\n"));
    assert_eq!(gift_manifest_checked("name: x\n"), None);
}

#[test]
fn gift_manifest_neither_format() {
    let text = "[unclosed";
    assert_eq!(gift_manifest_checked(text), Some(b("Invalid TOML format")));
}

#[test]
fn toml_table_reply_from_built_document() {
    let order = TomlValue::Table(vec![
        ("item".to_string(), TomlValue::String("Star".to_string())),
        ("quantity".to_string(), TomlValue::Integer(7)),
    ]);
    let package = TomlValue::Table(vec![
        ("name".to_string(), TomlValue::String("chig-bungus".to_string())),
        (
            "metadata".to_string(),
            TomlValue::Table(vec![("orders".to_string(), TomlValue::Array(vec![order]))]),
        ),
    ]);
    let table = Some(vec![("package".to_string(), package)]);
    assert_eq!(manifest_from_toml_table("", &table), Ok("Star: 7".to_string()));
    assert_eq!(manifest_from_toml_table("", &None), b("Invalid TOML format"));
}

#[test]
fn toml_listing_variant() {
    assert!(toml_manifest::manifest_listable(GOOD_TOML));
    assert_eq!(toml_manifest::gift_manifest(GOOD_TOML), Ok("Toy car: 2\nLego brick: 230".to_string()));
    assert_eq!(
        toml_manifest::gift_manifest_checked("[[package.metadata.orders]]\nitem = \"a\"\nquantity = -3\n"),
        Some(Ok("a: -3".to_string()))
    );
    assert_eq!(toml_manifest::gift_manifest_checked("[package]\nx = 1\n"), Some(a("error")));
    assert_eq!(
        toml_manifest::gift_manifest_checked("[[package.metadata.orders]]\nitem = \"a\"\nquantity = 0\n"),
        Some(a("error"))
    );
    assert_eq!(toml_manifest::gift_manifest_checked("[[package.metadata.orders]]\nquantity = 2\n"), None);
    assert_eq!(toml_manifest::gift_manifest_checked("not = = toml"), None);
    let table = vec![("package".to_string(), TomlValue::Integer(1))];
    assert!(toml_manifest::table_listable(&table));
    assert_eq!(toml_manifest::listing_from_table(&table), a("error"));
}
