use prism_indexer::{split_large_chunk, ClassInfo, CodeChunk, FunctionInfo, ImportInfo};

fn chunk(text: &str, start_line: usize, end_line: usize, tokens: usize) -> CodeChunk {
    CodeChunk {
        id: "parent".to_string(),
        text: text.to_string(),
        start_line,
        end_line,
        tokens,
        language: "rust".to_string(),
        functions: vec![FunctionInfo { name: "f".to_string(), start_line, end_line }],
        classes: vec![ClassInfo {
            name: "C".to_string(),
            start_line,
            end_line,
            methods: vec![FunctionInfo { name: "f".to_string(), start_line, end_line }],
        }],
        imports: vec![ImportInfo { source: "std".to_string(), start_line: 1, end_line: 1 }],
        dependencies: vec!["use std::fmt;".to_string()],
    }
}

fn ranges(chunks: &[CodeChunk]) -> Vec<(usize, usize)> {
    chunks.iter().map(|c| (c.start_line, c.end_line)).collect()
}

const FOUR_LINES: &str = "aaaaaaaa\nbbbbbbbb\ncccccccc\ndddddddd";

#[test]
fn test_chunk_within_budget_comes_back_unchanged() {
    let parent = chunk(FOUR_LINES, 10, 13, 8);
    let result = split_large_chunk(&parent, 8);
    assert_eq!(result, vec![parent.clone()]);
    assert_eq!(result[0].id, "parent");
    let roomy = split_large_chunk(&parent, 1000);
    assert_eq!(roomy, vec![parent]);
}

#[test]
fn test_budget_is_judged_by_the_token_field() {
    let parent = chunk(FOUR_LINES, 10, 13, 0);
    assert_eq!(split_large_chunk(&parent, 0), vec![parent]);
}

#[test]
fn test_pieces_are_filled_greedily() {
    let parent = chunk(FOUR_LINES, 10, 13, 8);
    let pieces = split_large_chunk(&parent, 4);
    assert_eq!(ranges(&pieces), vec![(10, 11), (12, 13)]);
    assert_eq!(pieces[0].text, "aaaaaaaa\nbbbbbbbb");
    assert_eq!(pieces[1].text, "cccccccc\ndddddddd");
    assert_eq!(pieces[0].tokens, 4);
    assert_eq!(pieces[1].tokens, 4);

    let odd = split_large_chunk(&parent, 5);
    assert_eq!(ranges(&odd), vec![(10, 11), (12, 13)]);

    let three = split_large_chunk(&parent, 7);
    assert_eq!(ranges(&three), vec![(10, 12), (13, 13)]);
    assert_eq!(three[0].tokens, 6);
    assert_eq!(three[1].tokens, 2);
    assert_eq!(three[1].text, "dddddddd");
}

#[test]
fn test_line_over_budget_is_a_piece_of_its_own() {
    let parent = chunk(FOUR_LINES, 10, 13, 8);
    let pieces = split_large_chunk(&parent, 1);
    assert_eq!(ranges(&pieces), vec![(10, 10), (11, 11), (12, 12), (13, 13)]);
    for piece in &pieces {
        assert_eq!(piece.tokens, 2);
    }
    let none = split_large_chunk(&parent, 0);
    assert_eq!(ranges(&none), vec![(10, 10), (11, 11), (12, 12), (13, 13)]);
}

#[test]
fn test_empty_lines_cost_nothing() {
    let parent = chunk("aaaaaaaa\n\n\nbbbbbbbb\n\ncccc", 1, 6, 5);
    let pieces = split_large_chunk(&parent, 2);
    assert_eq!(ranges(&pieces), vec![(1, 3), (4, 5), (6, 6)]);
    assert_eq!(pieces[0].text, "aaaaaaaa\n\n");
    assert_eq!(pieces[1].text, "bbbbbbbb\n");
    assert_eq!(pieces[2].text, "cccc");
    assert_eq!(pieces[0].tokens, 2);
    assert_eq!(pieces[2].tokens, 1);
}

#[test]
fn test_single_line_over_budget_is_one_new_piece() {
    let parent = chunk("a line of thirty-two characters!", 7, 7, 8);
    let pieces = split_large_chunk(&parent, 3);
    assert_eq!(pieces.len(), 1);
    assert_eq!(ranges(&pieces), vec![(7, 7)]);
    assert_eq!(pieces[0].text, parent.text);
    assert_eq!(pieces[0].tokens, 8);
    assert_ne!(pieces[0].id, parent.id);
}

#[test]
fn test_last_piece_ends_where_the_chunk_ends() {
    let parent = chunk(FOUR_LINES, 10, 20, 8);
    let pieces = split_large_chunk(&parent, 4);
    assert_eq!(ranges(&pieces), vec![(10, 11), (12, 20)]);
}

#[test]
fn test_pieces_cover_the_lines_once() {
    let text = (0..97).map(|i| "x".repeat(4 * (i % 7))).collect::<Vec<String>>().join("\n");
    let parent = chunk(&text, 100, 196, 1000);
    for budget in [0, 1, 3, 6, 10, 25, 999] {
        let pieces = split_large_chunk(&parent, budget);
        assert_eq!(pieces[0].start_line, 100);
        assert_eq!(pieces[pieces.len() - 1].end_line, 196);
        for pair in pieces.windows(2) {
            assert_eq!(pair[1].start_line, pair[0].end_line + 1);
        }
        let mut total = 0;
        for piece in &pieces {
            assert!(piece.start_line <= piece.end_line);
            assert!(piece.tokens <= budget || piece.start_line == piece.end_line);
            total += piece.tokens;
        }
        assert_eq!(total, (0..97).map(|i| i % 7).sum::<usize>());
        let joined = pieces.iter().map(|p| p.text.clone()).collect::<Vec<String>>().join("\n");
        assert_eq!(joined, text);
    }
}

#[test]
fn test_pieces_carry_what_the_chunk_knows() {
    let parent = chunk(FOUR_LINES, 10, 13, 8);
    let pieces = split_large_chunk(&parent, 4);
    for piece in &pieces {
        assert_eq!(piece.language, parent.language);
        assert_eq!(piece.functions, parent.functions);
        assert_eq!(piece.classes, parent.classes);
        assert_eq!(piece.imports, parent.imports);
        assert_eq!(piece.dependencies, parent.dependencies);
    }
}

#[test]
fn test_pieces_get_fresh_identifiers() {
    let parent = chunk(FOUR_LINES, 10, 13, 8);
    let pieces = split_large_chunk(&parent, 1);
    for (i, piece) in pieces.iter().enumerate() {
        assert_eq!(piece.id.len(), 36);
        assert_eq!(piece.id.matches('-').count(), 4);
        assert_eq!(piece.id.chars().nth(14), Some('4'));
        assert_ne!(piece.id, parent.id);
        for other in &pieces[i + 1..] {
            assert_ne!(piece.id, other.id);
        }
    }
}

#[test]
fn test_chunk_without_text_over_budget_has_no_piece() {
    let parent = chunk("", 3, 3, 5);
    assert!(split_large_chunk(&parent, 1).is_empty());
}

#[test]
fn test_windows_line_ends_are_not_kept_in_pieces() {
    let parent = chunk("aaaaaaaa\r\nbbbbbbbb\r\n", 1, 2, 5);
    let pieces = split_large_chunk(&parent, 2);
    assert_eq!(ranges(&pieces), vec![(1, 1), (2, 2)]);
    assert_eq!(pieces[0].text, "aaaaaaaa");
    assert_eq!(pieces[1].text, "bbbbbbbb");
}
