use ffxi_dat::sysmes::{article_for, compose, format_gil, Span, SpanKind, SysMesDat, SysMesLine, SysMesParams};

#[test]
fn article_follows_the_leading_letter() {
    assert_eq!(article_for("lizard tail"), "a");
    assert_eq!(article_for("pair of bounding boots"), "a");
    assert_eq!(article_for("ingot"), "an");
    assert_eq!(article_for("Emperor's Ring"), "an");
    assert_eq!(article_for(""), "a");
}

#[test]
fn gil_is_grouped_in_thousands() {
    assert_eq!(format_gil(0), "0 gil");
    assert_eq!(format_gil(42), "42 gil");
    assert_eq!(format_gil(1_200), "1,200 gil");
    assert_eq!(format_gil(1_234_567), "1,234,567 gil");
}

#[test]
fn a_loss_keeps_its_sign_ahead_of_the_groups() {
    assert_eq!(format_gil(-1_000), "-1,000 gil");
    assert_eq!(format_gil(-999), "-999 gil");
}

#[test]
fn plain_text_joins_spans_and_lines() {
    let span = |t: &str, kind| Span { text: t.to_string(), kind };
    let line = SysMesLine {
        log_mode: Some(0x79),
        lines: vec![
            vec![span("You obtain a ", SpanKind::Text), span("lizard tail", SpanKind::Item), span(".", SpanKind::Text)],
            vec![span("Second.", SpanKind::Text)],
        ],
    };
    assert_eq!(line.to_plain(), "You obtain a lizard tail.\nSecond.");
    assert_eq!(SysMesLine { log_mode: None, lines: Vec::new() }.to_plain(), "");
}

fn spans(text: &str) -> Vec<Span> {
    vec![Span { text: text.to_string(), kind: SpanKind::Text }]
}

/// `1f 79` log mode, literal text, `1c 02` text param, `0a 00` number.
#[test]
fn log_mode_and_params_substitute() {
    let entry = b"\x1fy\x1c\x02 rolls \x0a\x00!";
    let mut p = SysMesParams::default();
    p.strings[2] = Some("Daisy");
    p.numbers[0] = 7;
    let line = compose(entry, &p);
    assert_eq!(line.log_mode, Some(0x79));
    assert_eq!(line.to_plain(), "Daisy rolls 7!");
}

#[test]
fn an_item_tag_becomes_its_own_span() {
    // `01 05 27 82 80 80 80` — item name from parameter 0.
    let entry = b"\x1fyYou obtain \x01\x01\x01 \x01\x05'\x82\x80\x80\x80.";
    let mut p = SysMesParams::default();
    p.items[0] = Some("lizard tail");
    let line = compose(entry, &p);
    assert_eq!(line.lines.len(), 1);
    assert_eq!(
        line.lines[0],
        vec![
            Span { text: "You obtain a ".into(), kind: SpanKind::Text },
            Span { text: "lizard tail".into(), kind: SpanKind::Item },
            Span { text: ".".into(), kind: SpanKind::Text },
        ],
        "the item name must be isolated so it can take retail's green"
    );
}

#[test]
fn article_looks_ahead_to_the_item_it_introduces() {
    let entry = b"You find \x01\x01\x01 \x01\x05'\x82\x80\x80\x80.";
    let mut p = SysMesParams::default();
    p.items[0] = Some("ingot");
    assert_eq!(compose(entry, &p).to_plain(), "You find an ingot.");
}

#[test]
fn the_article_alternative_drops_for_a_named_entity() {
    let entry = b"on \x7f\x88\x01[the /]\x01\x01\x11.";
    let mut p = SysMesParams { target_name: Some("Leaping Lizzy"), target_article: false, ..Default::default() };
    assert_eq!(compose(entry, &p).to_plain(), "on Leaping Lizzy.");
    p.target_article = true;
    p.target_name = Some("Rock Lizard");
    assert_eq!(compose(entry, &p).to_plain(), "on the Rock Lizard.");
}

#[test]
fn plural_alternative_follows_its_numeric_parameter() {
    let entry = b"\x12\x00 \x7f\x86\x00[second/seconds] left";
    let mut p = SysMesParams::default();
    p.numbers[0] = 1;
    assert_eq!(compose(entry, &p).to_plain(), "1 second left");
    p.numbers[0] = 9;
    assert_eq!(compose(entry, &p).to_plain(), "9 seconds left");
}

#[test]
fn a_newline_starts_a_second_log_line() {
    let entry = b"\x1f{first\x07second";
    let line = compose(entry, &SysMesParams::default());
    assert_eq!(line.lines, vec![spans("first"), spans("second")]);
    assert_eq!(line.to_plain(), "first\nsecond");
}

#[test]
fn capitalize_code_uppercases_the_next_substitution() {
    let entry = b"\x7f\x80\x01\x01\x05&\x82\x80\x80\x80 lost.";
    let mut p = SysMesParams::default();
    p.items[0] = Some("lizard tail");
    assert_eq!(compose(entry, &p).to_plain(), "Lizard tail lost.");
}

#[test]
fn gil_slot_renders_with_its_unit() {
    let entry = b"\x1f\x7f\x1c\x00 obtains \x7f\xb4\x00.";
    let mut p = SysMesParams::default();
    p.strings[0] = Some("Daisy");
    p.numbers[0] = 1_200;
    let line = compose(entry, &p);
    assert_eq!(line.log_mode, Some(0x7f));
    assert_eq!(line.to_plain(), "Daisy obtains 1,200 gil.");
}

#[test]
fn the_terminator_stops_composition() {
    let entry = b"done.\x7f1\x00\x07trailing";
    assert_eq!(compose(entry, &SysMesParams::default()).to_plain(), "done.");
}

#[test]
fn missing_parameters_render_empty_rather_than_panicking() {
    let entry = b"\x1fy\x1c\x07 finds \x01\x05'\x82\x87\x80\x80 at \x0a\x07.";
    let line = compose(entry, &SysMesParams::default());
    assert_eq!(line.to_plain(), " finds  at 0.");
}

#[test]
fn other_tags_write_numbers_and_shift_jis_becomes_a_replacement() {
    let mut p = SysMesParams::default();
    p.numbers[1] = -42;
    let line = compose(b"a\x01\x05'\x90\x81\x80\x80b\x82\xa0c\x00d", &p);
    assert_eq!(line.to_plain(), "a-42b\u{FFFD}cd");
    assert_eq!(line.log_mode, None);
    assert_eq!(compose(b"", &p).lines.len(), 0);
    assert_eq!(compose(b"\x07\x07x\x07", &p).lines, vec![spans("x")]);
}

#[test]
fn a_table_serves_its_entries_once_it_has_the_shape_of_one() {
    let mut entries: Vec<Vec<u8>> = vec![Vec::new(); 263];
    entries[16] = b"You find \x01\x01\x01 \x01\x05'\x82\x80\x80\x80.".to_vec();
    assert!(SysMesDat::from_entries(entries.clone()).is_none());
    entries[262] = b"sysmes262".to_vec();
    let dat = SysMesDat::from_entries(entries).expect("entry 262 carries the placeholder");
    assert_eq!(dat.len(), 263);
    assert!(!dat.is_empty());
    let mut p = SysMesParams::default();
    p.items[0] = Some("ingot");
    assert_eq!(dat.message(16, &p).unwrap().to_plain(), "You find an ingot.");
    assert!(dat.message(263, &p).is_none());
    assert!(SysMesDat::from_entries(vec![b"sysmes".to_vec(); 10]).is_none());
}
