use cool_scroll::document::{paragraphs, style_of, Style};
use cool_scroll::text::is_whitespace;

#[test]
fn paragraphs_split_on_blank_lines_and_spot_headings() {
    let corpus = "\u{feff}CHAPTER I\r\n\r\nIt was in July, 1805.\r\n\r\nCHAPTER II\r\n\r\nThe fete began.\r\n";
    let paragraphs = paragraphs(corpus);

    assert_eq!(
        paragraphs,
        vec![
            (Style::Heading, "CHAPTER I".to_owned()),
            (Style::Body, "It was in July, 1805.".to_owned()),
            (Style::Heading, "CHAPTER II".to_owned()),
            (Style::Body, "The fete began.".to_owned()),
        ],
        "the byte order mark, the CRs and the blank lines should all be gone"
    );
}

#[test]
fn consecutive_lines_make_one_paragraph() {
    let corpus = "one\ntwo\n\n   \nthree";
    assert_eq!(
        paragraphs(corpus),
        vec![(Style::Body, "one two".to_owned()), (Style::Body, "three".to_owned())]
    );
    assert_eq!(paragraphs("It was\nin July."), vec![(Style::Body, "It was in July.".to_owned())]);
}

#[test]
fn the_lines_of_a_paragraph_are_trimmed_before_they_are_joined() {
    assert_eq!(
        paragraphs("  It was  \r\n\t in July, 1805. \r\n"),
        vec![(Style::Body, "It was in July, 1805.".to_owned())]
    );
}

#[test]
fn a_joined_paragraph_is_styled_as_a_whole() {
    // A heading word opening a short run makes a heading.
    assert_eq!(paragraphs("CHAPTER I\nof two"), vec![(Style::Heading, "CHAPTER I of two".to_owned())]);
    // A run that grows past forty bytes is prose, though its first line alone was short.
    let corpus = "CHAPTER I\nin which a great many things happen";
    assert_eq!(
        paragraphs(corpus),
        vec![(Style::Body, "CHAPTER I in which a great many things happen".to_owned())]
    );
}

#[test]
fn an_empty_or_blank_corpus_has_no_paragraphs() {
    assert!(paragraphs("").is_empty());
    assert!(paragraphs("\u{feff}").is_empty());
    assert!(paragraphs("\r\n \t\n\u{3000}\n").is_empty());
}

#[test]
fn whitespace_around_a_line_is_trimmed_inside_is_kept() {
    assert_eq!(
        paragraphs("  \u{a0}hello   world\t\u{2003}\r\n"),
        vec![(Style::Body, "hello   world".to_owned())]
    );
}

#[test]
fn a_byte_order_mark_is_only_dropped_at_the_start() {
    assert_eq!(
        paragraphs("a\n\n\u{feff}b"),
        vec![(Style::Body, "a".to_owned()), (Style::Body, "\u{feff}b".to_owned())]
    );
    // Without a line of its own it is not whitespace, so it stays.
    assert_eq!(paragraphs("\u{feff}\u{feff}x"), vec![(Style::Body, "\u{feff}x".to_owned())]);
}

#[test]
fn a_carriage_return_alone_does_not_end_a_line() {
    assert_eq!(paragraphs("a\rb"), vec![(Style::Body, "a\rb".to_owned())]);
}

#[test]
fn every_heading_word_makes_a_heading() {
    for word in ["CHAPTER", "PART", "BOOK", "EPILOGUE", "APPENDIX", "INTRODUCTION"] {
        assert_eq!(style_of(word), Style::Heading, "{word}");
        assert_eq!(style_of(&format!("{word} XII")), Style::Heading, "{word}");
    }
    assert_eq!(style_of("Chapter I"), Style::Body);
    assert_eq!(style_of("A CHAPTER"), Style::Body);
    assert_eq!(style_of(""), Style::Body);
}

#[test]
fn a_heading_is_at_most_forty_bytes() {
    let forty = format!("CHAPTER {}", "x".repeat(32));
    assert_eq!(forty.len(), 40);
    assert_eq!(style_of(&forty), Style::Heading);
    let forty_one = format!("{forty}x");
    assert_eq!(style_of(&forty_one), Style::Body);
}

#[test]
fn the_heading_limit_counts_bytes_not_characters() {
    // Twenty two-byte characters after "BOOK " make 45 bytes but 25 characters.
    let line = format!("BOOK {}", "é".repeat(20));
    assert_eq!(line.chars().count(), 25);
    assert_eq!(style_of(&line), Style::Body);
    let line = format!("BOOK {}", "é".repeat(17));
    assert_eq!(line.len(), 39);
    assert_eq!(style_of(&line), Style::Heading);
    // A four-byte character counts four.
    let line = format!("PART {}", "🙂".repeat(9));
    assert_eq!(line.len(), 41);
    assert_eq!(style_of(&line), Style::Body);
}

#[test]
fn a_long_line_opening_with_a_heading_word_is_prose() {
    let corpus = "CHAPTER ONE, in which a great many things happen to a great many people";
    assert_eq!(paragraphs(corpus), vec![(Style::Body, corpus.to_owned())]);
}

#[test]
fn whitespace_is_what_the_standard_library_calls_whitespace() {
    for code in 0..=0x10ffffu32 {
        if let Some(c) = char::from_u32(code) {
            assert_eq!(is_whitespace(c), c.is_whitespace(), "{code:#x}");
        }
    }
}

#[test]
fn paragraphs_join_the_lines_between_blank_lines() {
    let corpus = "\u{feff}BOOK ONE: 1805\r\n\r\n\u{2003}CHAPTER I\r\n\r\n\"Well, Prince, so Genoa and Lucca\r\nare now just family estates.\"\r\n";
    let mut runs: Vec<Vec<&str>> = Vec::new();
    let mut open = false;
    for line in corpus.strip_prefix('\u{feff}').unwrap().lines().map(str::trim) {
        if line.is_empty() {
            open = false;
        } else if open {
            runs.last_mut().unwrap().push(line);
        } else {
            runs.push(vec![line]);
            open = true;
        }
    }
    let expected: Vec<(Style, String)> = runs
        .into_iter()
        .map(|run| run.join(" "))
        .map(|text| (style_of(&text), text))
        .collect();
    assert_eq!(paragraphs(corpus), expected);
    assert_eq!(expected[0], (Style::Heading, "BOOK ONE: 1805".to_owned()));
    assert_eq!(expected[1], (Style::Heading, "CHAPTER I".to_owned()));
    assert_eq!(
        expected[2],
        (Style::Body, "\"Well, Prince, so Genoa and Lucca are now just family estates.\"".to_owned())
    );
    assert_eq!(expected.len(), 3);
}

#[test]
fn a_paragraph_read_back_is_itself() {
    let corpus = "\u{feff}BOOK ONE\r\n\r\n  It was in July, 1805.  \r\nCHAPTER II\n\tThe fete began.\n";
    for paragraph in paragraphs(corpus) {
        assert_eq!(paragraphs(&paragraph.1), vec![paragraph.clone()]);
    }
}

#[test]
fn a_blank_line_separates_the_paragraphs_on_either_side() {
    let a = "\u{feff}CHAPTER I\r\n\r\n  first";
    let b = "  second  \r\n\r\nPART THREE";
    let joined = format!("{a}\n\n{b}");
    let mut expected = paragraphs(a);
    expected.extend(paragraphs(b));
    assert_eq!(paragraphs(&joined), expected);
    assert_eq!(expected.len(), 4);
}

#[test]
fn a_line_feed_alone_continues_the_paragraph() {
    let (a, b) = ("It was", "in July.");
    assert_eq!(paragraphs(&format!("{a}\n{b}")), vec![(Style::Body, format!("{a} {b}"))]);
}
