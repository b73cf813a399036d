use fetch_mcp_rs::pagination::{paginate_content, slice_chars};

#[test]
fn slices_by_character() {
    assert_eq!(slice_chars("h\u{e9}llo w\u{f6}rld", 1, 4), "\u{e9}llo");
    assert_eq!(slice_chars("abc", 0, 3), "abc");
    assert_eq!(slice_chars("abc", 2, usize::MAX), "c");
    assert_eq!(slice_chars("abc", 3, 1), "");
    assert_eq!(slice_chars("abc", usize::MAX, usize::MAX), "");
    assert_eq!(slice_chars("abc", 1, 0), "");
}

#[test]
fn names_the_next_start() {
    assert_eq!(
        paginate_content("http://a/", "abcdefghijkl", "note\n", 0, 10),
        "note\nContents of http://a/:\nabcdefghij\n\n<error>Content truncated. Call the fetch \
         tool with a start_index of 10 to get more content.</error>"
    );
}

#[test]
fn last_piece_has_no_note() {
    assert_eq!(paginate_content("u", "abcdef", "", 3, 3), "Contents of u:\ndef");
    assert_eq!(paginate_content("u", "abcdef", "", 3, 100), "Contents of u:\ndef");
}

#[test]
fn says_when_nothing_is_left() {
    let none = "Contents of u:\n<error>No more content available.</error>";
    assert_eq!(paginate_content("u", "abc", "", 3, 5), none);
    assert_eq!(paginate_content("u", "abc", "", usize::MAX, 5), none);
    assert_eq!(paginate_content("u", "", "", 0, 5), none);
    assert_eq!(paginate_content("u", "abc", "", 0, 0), none);
}

#[test]
fn following_the_notes_gives_the_content_back() {
    let content = "The quick brown f\u{f6}x jumps over the lazy dog";
    let mut start = 0;
    let mut whole = String::new();
    loop {
        let page = paginate_content("u", content, "", start, 7);
        let body = page.strip_prefix("Contents of u:\n").unwrap();
        match body.split_once("\n\n<error>Content truncated. Call the fetch tool with a start_index of ") {
            Some((piece, note)) => {
                assert_eq!(piece.chars().count(), 7);
                whole.push_str(piece);
                start = note.strip_suffix(" to get more content.</error>").unwrap().parse().unwrap();
            }
            None => {
                whole.push_str(body);
                break;
            }
        }
    }
    assert_eq!(whole, content);
}
