use map_info::mission::{collect_map_values, parse_coop_maps, Token};

#[test]
fn parse_coop_maps_basic() {
    let input = r#"
"modes"
{
    "coop"
    {
        "Map" "c1m1_hotel"
    }
}
"#;
    assert_eq!(parse_coop_maps(input), vec!["c1m1_hotel"]);
}

#[test]
fn parse_coop_maps_multiple_chapters() {
    let input = r#"
"modes"
{
    "coop"
    {
        "1"
        {
            "Map" "p84m1_apartment"
        }
        "2"
        {
            "Map" "p84m2_eltrain"
        }
        "3"
        {
            "Map" "p84m3_tunnel"
        }
    }
}
"#;
    assert_eq!(
        parse_coop_maps(input),
        vec!["p84m1_apartment", "p84m2_eltrain", "p84m3_tunnel"]
    );
}

#[test]
fn parse_coop_maps_with_comments() {
    let input = r#"
// Header comment
"modes"
{
    "coop"  // cooperative mode
    {
        "Map" "c2m1_highway"  // first map
    }
}
"#;
    assert_eq!(parse_coop_maps(input), vec!["c2m1_highway"]);
}

#[test]
fn parse_coop_maps_sibling_keys_ignored() {
    let input = r#"
"modes"
{
    "versus"
    {
        "Map" "c5m1_waterfront"
    }
    "coop"
    {
        "Map" "c1m1_hotel"
    }
}
"#;
    assert_eq!(parse_coop_maps(input), vec!["c1m1_hotel"]);
}

#[test]
fn parse_coop_maps_missing() {
    let input = r#"
"modes"
{
    "versus"
    {
        "Map" "c5m1_waterfront"
    }
}
"#;
    assert_eq!(parse_coop_maps(input), Vec::<String>::new());
}

#[test]
fn parse_coop_maps_empty() {
    assert_eq!(parse_coop_maps(""), Vec::<String>::new());
}

#[test]
fn parse_coop_maps_no_modes() {
    assert_eq!(
        parse_coop_maps(r#""something" { "key" "val" }"#),
        Vec::<String>::new()
    );
}

#[test]
fn parse_coop_maps_tabs_instead_of_spaces() {
    let input = "\"modes\"\n{\n\t\"coop\"\n\t{\n\t\t\"Map\"\t\"c1m1_hotel\"\n\t}\n}";
    assert_eq!(parse_coop_maps(input), vec!["c1m1_hotel"]);
}

fn s(x: &str) -> Token {
    Token::String(x.to_string())
}

#[test]
fn collector_stops_at_closing_brace() {
    let tokens = vec![
        s("1"), Token::OpenBrace, s("Map"), s("a"), Token::CloseBrace,
        s("Map"), s("b"), Token::CloseBrace, s("Map"), s("c"),
    ];
    let mut pos = 0;
    assert_eq!(collect_map_values(&tokens, &mut pos), vec!["a", "b"]);
    assert_eq!(pos, 8);
}

#[test]
fn collector_counts_brace_after_map_key() {
    let tokens = vec![
        s("Map"), Token::OpenBrace, Token::CloseBrace, s("Map"), s("x"), Token::CloseBrace,
    ];
    let mut pos = 0;
    assert_eq!(collect_map_values(&tokens, &mut pos), vec!["x"]);
    assert_eq!(pos, 6);
    let mut pos = 9;
    assert!(collect_map_values(&tokens, &mut pos).is_empty());
    assert_eq!(pos, 9);
    let tokens = vec![s("Map")];
    let mut pos = 0;
    assert!(collect_map_values(&tokens, &mut pos).is_empty());
    assert_eq!(pos, 1);
}
