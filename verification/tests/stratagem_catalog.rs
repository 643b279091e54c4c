use hellcall_core::stratagems::{
    catalog_from_items, compute_stratagem_id, direction_from_alt, extract_command,
    extract_image_url, extract_name, fill_missing_ids, find_column_index, heading_text,
    looks_like_cloudflare_challenge, normalize_text, normalize_whitespace, page_is_usable,
    parse_stratagem_table, parse_stratagems, parse_stratagems_from_html, resolve_wiki_url, to_ascii_lower, Stratagem,
    StratagemCatalog, WikiBlock, WikiCell, WikiImage,
};

fn strs(v: &[&str]) -> Vec<String> {
    v.iter().map(|s| s.to_string()).collect()
}

fn text_cell(text: &str) -> WikiCell {
    WikiCell { text: strs(&[text]), link_text: None, image: None, image_alts: vec![] }
}

fn arrows_cell(alts: &[&str]) -> WikiCell {
    WikiCell { text: vec![], link_text: None, image: None, image_alts: strs(alts) }
}

fn icon_cell(src: &str) -> WikiCell {
    WikiCell {
        text: vec![],
        link_text: None,
        image: Some(WikiImage { src: Some(src.to_string()), data_src: None, srcset: None }),
        image_alts: vec![],
    }
}

fn header() -> Vec<WikiCell> {
    vec![text_cell("Icon"), text_cell("Name"), text_cell("Stratagem Code")]
}

fn stratagem(name: &str, id: &str, command: &[&str]) -> Stratagem {
    Stratagem {
        id: id.to_string(),
        section: "Current Stratagems".to_string(),
        category: "Offensive".to_string(),
        name: name.to_string(),
        icon_url: String::new(),
        command: strs(command),
    }
}

#[test]
fn stratagem_id_is_base64_of_the_joined_command() {
    assert_eq!(compute_stratagem_id(&strs(&["UP"])), "VVA=");
    assert_eq!(compute_stratagem_id(&strs(&["UP", "DOWN"])), "VVAsRE9XTg==");
    assert_eq!(compute_stratagem_id(&strs(&["DOWN", "LEFT", "RIGHT"])), "RE9XTixMRUZULFJJR0hU");
    assert_eq!(compute_stratagem_id(&vec![]), "");
}

#[test]
fn challenge_pages_are_recognized() {
    assert!(looks_like_cloudflare_challenge("<title>Just a moment...</title>"));
    assert!(looks_like_cloudflare_challenge("x __cf_chl_opt y"));
    assert!(looks_like_cloudflare_challenge("/cdn-cgi/challenge-platform/"));
    assert!(looks_like_cloudflare_challenge("Enable JavaScript and cookies to continue"));
    assert!(!looks_like_cloudflare_challenge("<div class=\"mw-parser-output\"></div>"));
    assert!(page_is_usable("<div class=\"mw-parser-output\"></div>"));
    assert!(!page_is_usable("<div>Just a moment... mw-parser-output</div>"));
    assert!(!page_is_usable("<div></div>"));
}

#[test]
fn arrow_alt_texts_name_directions() {
    assert_eq!(direction_from_alt("Arrow Up"), Some("UP"));
    assert_eq!(direction_from_alt("icon ARROW DOWN.png"), Some("DOWN"));
    assert_eq!(direction_from_alt("arrow left"), Some("LEFT"));
    assert_eq!(direction_from_alt("Arrow Right"), Some("RIGHT"));
    assert_eq!(direction_from_alt("Arrowup"), None);
    assert_eq!(to_ascii_lower("AbC É"), "abc É");
}

#[test]
fn wiki_links_are_made_absolute() {
    assert_eq!(resolve_wiki_url("https://a.test/x.png"), "https://a.test/x.png");
    assert_eq!(resolve_wiki_url("http://a.test/x.png"), "http://a.test/x.png");
    assert_eq!(resolve_wiki_url("//cdn.test/x.png"), "https://cdn.test/x.png");
    assert_eq!(resolve_wiki_url("/images/x.png"), "https://helldivers.wiki.gg/images/x.png");
    assert_eq!(resolve_wiki_url("././images/x.png"), "https://helldivers.wiki.gg/images/x.png");
    assert_eq!(resolve_wiki_url("x.png"), "https://helldivers.wiki.gg/x.png");
}

#[test]
fn text_normalization() {
    assert_eq!(normalize_text(&strs(&[" Orbital ", "\n Strike "])), "Orbital Strike");
    assert_eq!(normalize_whitespace("  a \t b  "), "a b");
    assert_eq!(heading_text(&Some(strs(&["Current", "Stratagems"])), &strs(&["ignored"])), "Current Stratagems");
    assert_eq!(heading_text(&None, &strs(&[" Mission  Stratagems "])), "Mission Stratagems");
}

#[test]
fn cell_name_prefers_link_text() {
    let mut cell = text_cell("Eagle Strike (x)");
    cell.link_text = Some(strs(&["Eagle", " Strike"]));
    assert_eq!(extract_name(&cell), "Eagle Strike");
    cell.link_text = Some(strs(&["  "]));
    assert_eq!(extract_name(&cell), "Eagle Strike (x)");
}

#[test]
fn cell_image_address_falls_back_through_attributes() {
    assert_eq!(extract_image_url(&icon_cell("/i.png")), Some("https://helldivers.wiki.gg/i.png".to_string()));
    let srcset = WikiCell {
        text: vec![],
        link_text: None,
        image: Some(WikiImage {
            src: None,
            data_src: None,
            srcset: Some(" //cdn.test/a.png 1x, //cdn.test/b.png 2x".to_string()),
        }),
        image_alts: vec![],
    };
    assert_eq!(extract_image_url(&srcset), Some("https://cdn.test/a.png".to_string()));
    let data = WikiCell {
        text: vec![],
        link_text: None,
        image: Some(WikiImage { src: None, data_src: Some("d.png".to_string()), srcset: Some("s.png".to_string()) }),
        image_alts: vec![],
    };
    assert_eq!(extract_image_url(&data), Some("https://helldivers.wiki.gg/d.png".to_string()));
    assert_eq!(extract_image_url(&text_cell("x")), None);
}

#[test]
fn commands_come_from_arrow_images_or_text() {
    assert_eq!(extract_command(&arrows_cell(&["Arrow Up", "flag", "Arrow Down"])), strs(&["UP", "DOWN"]));
    assert_eq!(extract_command(&text_cell("↑→ down")), strs(&["UP", "RIGHT", "DOWN"]));
    assert_eq!(extract_command(&text_cell("press Left then up")), strs(&["LEFT", "UP"]));
    assert_eq!(extract_command(&text_cell("none")), Vec::<String>::new());
}

#[test]
fn header_columns_are_found_ignoring_case() {
    let cells = vec![text_cell("ICON"), text_cell(" name "), text_cell("Stratagem Code")];
    assert_eq!(find_column_index(&cells, "Icon"), Some(0));
    assert_eq!(find_column_index(&cells, "Name"), Some(1));
    assert_eq!(find_column_index(&cells, "Stratagem Code"), Some(2));
    assert_eq!(find_column_index(&cells, "Cooldown"), None);
}

#[test]
fn table_rows_become_stratagems() {
    let rows = vec![
        header(),
        vec![icon_cell("/a.png"), text_cell("Orbital Strike"), arrows_cell(&["Arrow Right", "Arrow Up"])],
        vec![icon_cell("/b.png"), text_cell(""), arrows_cell(&["Arrow Up"])],
        vec![icon_cell("/c.png"), text_cell("Short")],
    ];
    let items = parse_stratagem_table(&rows, "Current Stratagems", "");
    assert_eq!(items.len(), 1);
    assert_eq!(items[0].name, "Orbital Strike");
    assert_eq!(items[0].category, "Current Stratagems");
    assert_eq!(items[0].icon_url, "https://helldivers.wiki.gg/a.png");
    assert_eq!(items[0].command, strs(&["RIGHT", "UP"]));
    assert_eq!(items[0].id, "");
    assert!(parse_stratagem_table(&vec![], "s", "c").is_empty());
}

#[test]
fn only_wikitables_of_catalog_sections_are_read() {
    let table = |name: &str| WikiBlock::Table {
        wikitable: true,
        rows: vec![header(), vec![icon_cell("/a.png"), text_cell(name), arrows_cell(&["Arrow Down"])]],
    };
    let blocks = vec![
        WikiBlock::SectionHeading { headline: None, text: strs(&["Removed Stratagems"]) },
        table("Old"),
        WikiBlock::SectionHeading { headline: Some(strs(&["Current Stratagems"])), text: vec![] },
        WikiBlock::CategoryHeading { headline: None, text: strs(&["Offensive"]) },
        table("Strike"),
        WikiBlock::Other,
        WikiBlock::Table {
            wikitable: false,
            rows: vec![header(), vec![icon_cell("/a.png"), text_cell("Plain"), arrows_cell(&["Arrow Up"])]],
        },
        WikiBlock::SectionHeading { headline: None, text: strs(&["Mission Stratagems"]) },
        table("Reinforce"),
    ];
    let items = parse_stratagems(&blocks);
    let names: Vec<&str> = items.iter().map(|s| s.name.as_str()).collect();
    assert_eq!(names, vec!["Strike", "Reinforce"]);
    assert_eq!(items[0].category, "Offensive");
    assert_eq!(items[1].category, "Mission Stratagems");
    assert_eq!(items[1].section, "Mission Stratagems");
}

#[test]
fn missing_ids_are_filled_from_commands() {
    let mut catalog = StratagemCatalog::default();
    assert_eq!(catalog.source_url, "https://helldivers.wiki.gg/wiki/Stratagems");
    assert!(catalog.updated_at_unix.is_none());
    assert!(!fill_missing_ids(&mut catalog));
    catalog.items.push(stratagem("A", "", &["UP"]));
    catalog.items.push(stratagem("B", "kept", &["UP", "DOWN"]));
    assert!(fill_missing_ids(&mut catalog));
    assert_eq!(catalog.items[0].id, "VVA=");
    assert_eq!(catalog.items[1].id, "kept");
    assert!(!fill_missing_ids(&mut catalog));
}

#[test]
fn catalog_needs_at_least_one_stratagem() {
    let err = catalog_from_items(vec![], 5).unwrap_err();
    assert_eq!(err, "No stratagems were parsed from the wiki response.");
    let catalog = catalog_from_items(vec![stratagem("A", "", &["UP", "DOWN"])], 7).expect("catalog");
    assert_eq!(catalog.updated_at_unix, Some(7));
    assert_eq!(catalog.items[0].id, "VVAsRE9XTg==");
    assert_eq!(catalog.source_url, "https://helldivers.wiki.gg/wiki/Stratagems");
}

#[test]
fn stratagems_are_read_from_the_wiki_page() {
    let html = r#"<!DOCTYPE html><html><body><div class="mw-parser-output">
<h2><span class="mw-headline">Current   Stratagems</span><span>[edit]</span></h2>
<h3>Offensive</h3>
<table class="wikitable sortable"><tr><th>Icon</th><th>Name</th><th>Stratagem Code</th></tr>
<tr><td><img src="/images/strike.png"></td><td><a href="/wiki/x">Orbital  Strike</a></td>
<td><img alt="Arrow Right"><img alt="Arrow Up"><img alt="flag"></td></tr></table>
<table><tr><th>Icon</th><th>Name</th><th>Stratagem Code</th></tr>
<tr><td></td><td>Not a wikitable</td><td><img alt="Arrow Up"></td></tr></table>
<h2>Other</h2>
<table class="wikitable"><tr><th>Icon</th><th>Name</th><th>Stratagem Code</th></tr>
<tr><td></td><td>Elsewhere</td><td><img alt="Arrow Up"></td></tr></table>
</div></body></html>"#;
    let items = parse_stratagems_from_html(html).unwrap();
    assert_eq!(items.len(), 1);
    assert_eq!(items[0].name, "Orbital Strike");
    assert_eq!(items[0].section, "Current Stratagems");
    assert_eq!(items[0].category, "Offensive");
    assert_eq!(items[0].command, strs(&["RIGHT", "UP"]));
    assert_eq!(items[0].icon_url, "https://helldivers.wiki.gg/images/strike.png");
}

#[test]
fn a_page_without_wiki_content_is_refused() {
    let r = parse_stratagems_from_html("<html><body><div class=\"content\">x</div></body></html>");
    assert_eq!(r.unwrap_err(), "Wiki response did not include .mw-parser-output");
}
