use bgrag::ingest::fixed::FixedSizeChunker;
use bgrag::ingest::merge::Merger;
use bgrag::ingest::pack::Packer;
use bgrag::ingest::paragraph::ParagraphChunker;
use bgrag::ingest::sections::{parse_sections, Section};
use bgrag::ingest::split::Splitter;
use bgrag::model::RawChunk;
use bgrag::page_marker::is_page_marker;
use bgrag::tokenizer::{count_plain_tokens, decode_text};

fn chunk(text: &str, page: Option<u32>) -> RawChunk {
    RawChunk { text: text.to_string(), page }
}

fn shown(chunks: &[RawChunk]) -> Vec<(&str, Option<u32>)> {
    chunks.iter().map(|c| (c.text.as_str(), c.page)).collect()
}

#[test]
fn page_markers_are_told_from_other_lines() {
    for line in ["=== PAGE 1 ===", "= PAGE 0 =", "====== PAGE 12345 =", "== PAGE \u{666}7 =="] {
        assert!(is_page_marker(line), "{line:?}");
    }
    for line in [
        "",
        "PAGE 1",
        "=== PAGE ===",
        "=== PAGE 1",
        " === PAGE 1 ===",
        "=== PAGE 1 === ",
        "=== page 1 ===",
        "=== PAGE  1 ===",
        "=== PAGE 1a ===",
        "=== PAGE 1 ===\n",
        "x=== PAGE 1 ===",
        "=== PAGE \u{2160} ===",
    ] {
        assert!(!is_page_marker(line), "{line:?}");
    }
}

#[test]
fn page_numbers_take_the_decimal_digits_of_all_scripts() {
    let digit = regex::Regex::new(r"^\d$").unwrap();
    let mut near: Vec<char> = Vec::new();
    let mut last_was_digit = false;
    for x in 0..=0x10ffffu32 {
        if let Some(c) = char::from_u32(x) {
            let is_digit = c.is_numeric() && digit.is_match(&c.to_string());
            if is_digit != last_was_digit {
                near.push(c);
                if let Some(before) = char::from_u32(x.wrapping_sub(1)) {
                    near.push(before);
                }
            }
            last_was_digit = is_digit;
        }
    }
    assert!(near.len() > 200);
    for c in near {
        let line = format!("= PAGE {c} =");
        assert_eq!(is_page_marker(&line), digit.is_match(&c.to_string()), "{c:?}");
    }
}

#[test]
fn plain_tokens_do_not_recognise_special_ones() {
    assert_eq!(count_plain_tokens(""), Some(0));
    assert_eq!(count_plain_tokens("hello world"), Some(2));
    assert!(count_plain_tokens("<|endoftext|>").unwrap() > 1);
}

#[test]
fn tokens_are_read_back_as_text() {
    let pages = FixedSizeChunker::tokenize("=== PAGE 1 ===\nhello world\n").unwrap();
    assert_eq!(pages.len(), 1);
    assert_eq!(pages[0].len(), 3);
    assert_eq!(decode_text(&pages[0], 0, 3), "hello world\n");
    assert_eq!(decode_text(&pages[0], 1, 2), " world");
    assert_eq!(decode_text(&pages[0], 1, 1), "");
}

#[test]
fn windows_overlap_and_end_at_the_last_token() {
    let chunker = FixedSizeChunker { size: 4, overlap: 1 };
    assert_eq!(chunker.windows(0), vec![]);
    assert_eq!(chunker.windows(3), vec![(0, 3)]);
    assert_eq!(chunker.windows(4), vec![(0, 4)]);
    assert_eq!(chunker.windows(9), vec![(0, 4), (3, 7), (6, 9)]);
    assert_eq!(chunker.windows(10), vec![(0, 4), (3, 7), (6, 10)]);
}

#[test]
fn windows_that_do_not_advance_are_refused() {
    let text = "=== PAGE 1 ===\none two three four five\n";
    assert!(FixedSizeChunker { size: 2, overlap: 2 }.try_chunk_text(text).is_none());
    assert!(FixedSizeChunker { size: 0, overlap: 0 }.try_chunk_text(text).is_none());
    assert!(!FixedSizeChunker { size: 2, overlap: 3 }.can_chunk(text));
    // A page that fits one window needs no second one.
    assert!(FixedSizeChunker { size: 50, overlap: 60 }.can_chunk(text));
}

#[test]
fn without_overlap_the_chunks_hold_the_pages() {
    let text = "dropped\n=== PAGE 1 ===\nalpha beta gamma\r\n\ndelta\n=== PAGE 2 ===\nomega";
    let chunks = FixedSizeChunker { size: 3, overlap: 0 }.chunk_text(text);
    let whole: String = chunks.iter().map(|c| c.text.as_str()).collect();
    assert_eq!(whole, "alpha beta gamma\n\ndelta\nomega\n");
    assert!(chunks.len() > 2);
    assert_eq!(chunks[0].page, Some(1));
    assert_eq!(chunks[chunks.len() - 1].page, Some(2));
}

#[test]
fn a_cut_character_is_replaced() {
    let chunks = FixedSizeChunker { size: 1, overlap: 0 }.chunk_text("=== PAGE 1 ===\n\u{1f9d9}\n");
    assert!(chunks.len() > 2);
    assert!(chunks.iter().any(|c| c.text.contains('\u{fffd}')));
}

#[test]
fn fixed_and_paragraph_chunkers_agree_with_their_checked_forms() {
    let text = "=== PAGE 1 ===\n# One\n\nfirst\n\nsecond\n";
    let fixed = FixedSizeChunker { size: 5, overlap: 1 };
    assert!(fixed.can_chunk(text));
    assert_eq!(
        shown(&fixed.try_chunk_text(text).unwrap()),
        shown(&fixed.chunk_text(text))
    );
    let paragraph = ParagraphChunker { target_size: 5, max_size: 10, min_size: 2 };
    assert!(paragraph.can_chunk(text));
    assert_eq!(
        shown(&paragraph.try_chunk_text(text).unwrap()),
        shown(&paragraph.chunk_text(text))
    );
}

#[test]
fn sections_follow_headings_behind_blank_lines() {
    let text = "before\n\n# A\n\none\ntwo\n\nthree\n=== PAGE 9 ===\nfour\n\n## B\n";
    let sections = parse_sections(text);
    let shown: Vec<(u32, Vec<&str>)> = sections
        .iter()
        .map(|s| (s.page, s.paragraphs.iter().map(|p| p.as_str()).collect()))
        .collect();
    assert_eq!(
        shown,
        vec![
            (0, vec!["before\n"]),
            (0, vec!["# A\n", "one\ntwo\n", "three\n"]),
            (1, vec!["four\n"]),
            (1, vec!["## B\n"]),
        ]
    );
    assert_eq!(
        sections.iter().map(|s| s.heading_level()).collect::<Vec<_>>(),
        vec![None, Some(1), None, Some(2)]
    );
}

#[test]
fn text_without_content_has_no_sections_and_no_chunks() {
    let text = "\n  \n=== PAGE 1 ===\n\t\n=== PAGE 2 ===\n";
    assert!(parse_sections(text).is_empty());
    let chunker = ParagraphChunker { target_size: 1, max_size: 2, min_size: 3 };
    assert!(chunker.chunk_text(text).is_empty());
}

#[test]
fn heading_levels_stop_at_six() {
    let section = |line: &str| Section { paragraphs: vec![line.to_string()], page: 1 };
    assert_eq!(section("###### six\n").heading_level(), Some(6));
    assert_eq!(section("######## eight\n").heading_level(), Some(6));
    assert_eq!(section("plain # text\n").heading_level(), None);
    assert_eq!(section("").heading_level(), None);
    assert_eq!(Section::new(3).heading_level(), None);
    assert_eq!(section("## two\nmore\n").first_line(), Some("## two".to_string()));
}

#[test]
fn a_packer_flushes_at_the_target_the_maximum_and_high_headings() {
    let mut packer = Packer::new(10, 20);
    packer.add_section("a", 4, None, 1);
    packer.add_section("b", 5, Some(2), 2);
    // Nine tokens are under the target; a deeper heading joins and reaches it.
    packer.add_section("c", 1, Some(3), 3);
    packer.add_section("d", 8, Some(2), 4);
    // The same level ends the chunk.
    packer.add_section("e", 1, Some(2), 5);
    // Twenty more would pass the maximum.
    packer.add_section("f", 20, None, 6);
    packer.flush();
    assert_eq!(
        shown(&packer.out),
        vec![("abc", Some(1)), ("d", Some(4)), ("e", Some(5)), ("f", Some(6))]
    );
}

#[test]
fn a_packer_puts_the_chunks_of_a_split_section_behind_what_it_gathered() {
    let mut packer = Packer::new(10, 20);
    packer.add_section("a", 4, Some(1), 1);
    packer.add_split(vec![chunk("x", Some(2)), chunk("y", Some(2))]);
    packer.add_section("b", 4, Some(3), 3);
    packer.flush();
    assert_eq!(
        shown(&packer.out),
        vec![("a", Some(1)), ("x", Some(2)), ("y", Some(2)), ("b", Some(3))]
    );
}

#[test]
fn a_splitter_prefixes_all_chunks_but_the_first() {
    let mut splitter = Splitter::new(Some("# H\n".to_string()), 7, 10);
    splitter.add_paragraph("one\n", 6);
    splitter.add_paragraph("two\n", 4);
    splitter.add_paragraph("three\n", 5);
    splitter.flush();
    assert_eq!(
        shown(&splitter.out),
        vec![("one\ntwo\n", Some(7)), ("# H\nthree\n", Some(7))]
    );
}

#[test]
fn a_long_heading_is_not_repeated() {
    let chunker = ParagraphChunker { target_size: 4, max_size: 8, min_size: 0 };
    let section = Section {
        paragraphs: vec![
            "# Heading\n".to_string(),
            "one two three four five six\n".to_string(),
            "seven eight nine ten eleven twelve\n".to_string(),
        ],
        page: 2,
    };
    let prefix = count_plain_tokens("# Heading\n").unwrap();
    assert!(prefix * 4 >= 8);
    let chunks = chunker.split_oversized_section(&section).unwrap();
    assert!(chunks.len() > 1);
    assert!(chunks[1..].iter().all(|c| !c.text.contains("# Heading")));
    assert!(chunks.iter().all(|c| c.page == Some(2)));
    let whole: String = chunks.iter().map(|c| c.text.as_str()).collect();
    assert_eq!(
        whole,
        "# Heading\n\none two three four five six\n\nseven eight nine ten eleven twelve\n\n"
    );
}

#[test]
fn packing_loses_nothing() {
    let text = "=== PAGE 1 ===\nintro\n\n# A\n\nalpha\n\nbeta\n\n## B\n\ngamma\n=== PAGE 2 ===\ndelta\n";
    let chunker = ParagraphChunker { target_size: 6, max_size: 12, min_size: 0 };
    let sections = chunker.parse_sections(text);
    let packed = chunker.pack_sections(&sections).unwrap();
    let whole: String = packed.iter().map(|c| c.text.as_str()).collect();
    let expected: String = sections.iter().map(|s| format!("{}\n", s.paragraphs.join("\n"))).collect();
    assert_eq!(whole, expected);
    // Without a minimum, merging changes nothing.
    let merged = chunker.merge_small_chunks(packed.clone()).unwrap();
    assert_eq!(shown(&merged), shown(&packed));
}

#[test]
fn a_maximum_of_zero_cannot_be_met() {
    let chunker = ParagraphChunker { target_size: 0, max_size: 0, min_size: 0 };
    assert!(chunker.try_chunk_text("=== PAGE 1 ===\ntext\n").is_none());
    assert_eq!(chunker.try_chunk_text("").unwrap().len(), 0);
}

#[test]
fn a_merger_joins_forward_and_keeps_the_first_page() {
    let mut merger = Merger::new(10);
    let first = merger.take_with(chunk("a", Some(1)));
    merger.add_chunk(first, 3, false);
    let second = merger.take_with(chunk("b", Some(2)));
    assert_eq!(second.text, "a\nb");
    assert_eq!(second.page, Some(1));
    merger.add_chunk(second, 12, false);
    let third = merger.take_with(chunk("c", Some(3)));
    merger.add_chunk(third, 2, true);
    assert_eq!(shown(&merger.finish(2)), vec![("a\nb\nc", Some(1))]);
}

#[test]
fn merging_keeps_the_joined_text() {
    let chunker = ParagraphChunker { target_size: 1, max_size: 1, min_size: 4 };
    let chunks = vec![
        chunk("one", Some(1)),
        chunk("two three four five six", Some(2)),
        chunk("seven", None),
        chunk("eight nine ten eleven", Some(4)),
        chunk("twelve", Some(5)),
    ];
    let before: Vec<&str> = chunks.iter().map(|c| c.text.as_str()).collect();
    let joined = before.join("\n");
    let merged = chunker.merge_small_chunks(chunks.clone()).unwrap();
    let after: Vec<&str> = merged.iter().map(|c| c.text.as_str()).collect();
    assert_eq!(after.join("\n"), joined);
    assert!(merged.len() < chunks.len());
    assert_eq!(merged[0].page, Some(1));
    for c in &merged {
        assert!(count_plain_tokens(&c.text).unwrap() >= 4, "{:?}", c.text);
    }
}

#[test]
fn a_single_small_chunk_stays() {
    let chunker = ParagraphChunker { target_size: 1, max_size: 1, min_size: 100 };
    let merged = chunker.merge_small_chunks(vec![chunk("a", None)]).unwrap();
    assert_eq!(shown(&merged), vec![("a", None)]);
}

#[test]
fn without_overlap_the_chunks_on_a_page_hold_that_page() {
    let text = "=== PAGE 1 ===\nalpha beta gamma\n=== PAGE 2 ===\n=== PAGE 3 ===\ndelta\nomega\n";
    let chunks = FixedSizeChunker { size: 2, overlap: 0 }.chunk_text(text);
    let on = |page: u32| -> String {
        chunks.iter().filter(|c| c.page == Some(page)).map(|c| c.text.as_str()).collect()
    };
    assert_eq!(on(1), "alpha beta gamma\n");
    assert_eq!(on(2), "");
    assert_eq!(on(3), "delta\nomega\n");
}

#[test]
fn pages_never_go_back_and_content_is_chunked() {
    let text = "zero\n=== PAGE 1 ===\none\n\n# A\n\ntwo three four five\n=== PAGE 2 ===\n=== PAGE 3 ===\nsix\n";
    for max_size in [1, 3, 5, 50] {
        for min_size in [0, 2, 100] {
            let chunker = ParagraphChunker { target_size: 2, max_size, min_size };
            let pages: Vec<u32> = chunker.chunk_text(text).iter().map(|c| c.page.unwrap()).collect();
            assert!(!pages.is_empty());
            assert_eq!(pages[0], 0);
            assert!(pages.windows(2).all(|w| w[0] <= w[1]), "{pages:?}");
            assert!(pages.iter().all(|p| *p <= 3));
        }
    }
    let plain = ParagraphChunker { target_size: 1, max_size: 50, min_size: 0 };
    assert_eq!(plain.chunk_text("x").len(), 1);
}

#[test]
fn the_sections_on_a_page_hold_the_lines_of_that_page() {
    let text = "zero\n=== PAGE 1 ===\none\n\n# A\ntwo\n \nthree\n=== PAGE 2 ===\n\n=== PAGE 3 ===\nfour\n";
    let sections = parse_sections(text);
    let on = |page: u32| -> String {
        sections.iter().filter(|s| s.page == page).flat_map(|s| s.paragraphs.iter().cloned()).collect()
    };
    assert_eq!(on(0), "zero\n");
    assert_eq!(on(1), "one\n# A\ntwo\nthree\n");
    assert_eq!(on(2), "");
    assert_eq!(on(3), "four\n");
}
