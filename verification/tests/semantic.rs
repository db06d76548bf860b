use webgal_lsp::encode::{
    position_utf16_to_utf8, position_utf8_to_utf16, range_utf16_to_utf8, range_utf8_to_utf16,
};
use webgal_lsp::position::{make_span, Position, Range, SemanticToken};
use webgal_lsp::semantic::{highlight_range, highlights_utf8_to_utf16};

fn pos(line: u32, character: u32) -> Position {
    Position { line, character }
}

/// The tokens of one line, laid out by bytes, from their (start, end) spans.
fn line_tokens(spans: &[(u32, u32)]) -> Vec<SemanticToken> {
    let mut last_end = 0;
    spans
        .iter()
        .map(|&(start, end)| {
            let token = SemanticToken {
                delta_line: 0,
                delta_start: start - last_end,
                length: end - start,
                token_type: 1,
                token_modifiers_bitset: 0,
            };
            last_end = end;
            token
        })
        .collect()
}

/// Decodes the byte layout back to (line, start, end) triples.
fn token_ranges(tokens: &[SemanticToken]) -> Vec<(u32, u32, u32)> {
    let mut line = 0;
    let mut previous_end = 0;
    tokens
        .iter()
        .map(|token| {
            if token.delta_line > 0 {
                line += token.delta_line;
                previous_end = 0;
            }
            let start = previous_end + token.delta_start;
            let end = start + token.length;
            previous_end = end;
            (line, start, end)
        })
        .collect()
}

/// The spans that a `wait:<digits>;` line is highlighted with.
fn wait_line() -> Vec<SemanticToken> {
    line_tokens(&[(0, 4), (4, 5), (5, 8), (8, 9), (9, 9)])
}

#[test]
fn position_conversion_accepts_eof_line() {
    let lines: Vec<&str> = "hello\n".split('\n').collect();
    let position = pos(1, 0);
    assert_eq!(position_utf16_to_utf8(&lines, position), position);
    assert_eq!(position_utf8_to_utf16(&lines, position), position);
}

#[test]
fn position_conversion_uses_its_line() {
    let lines = vec!["hello", "say:你好x;"];
    assert_eq!(position_utf8_to_utf16(&lines, pos(1, 10)), pos(1, 6));
    assert_eq!(position_utf16_to_utf8(&lines, pos(1, 6)), pos(1, 10));
    assert_eq!(position_utf16_to_utf8(&lines, pos(0, 3)), pos(0, 3));
}

#[test]
fn position_past_last_line_is_unchanged() {
    let lines = vec!["你好"];
    assert_eq!(position_utf8_to_utf16(&lines, pos(3, 6)), pos(3, 6));
    assert_eq!(position_utf16_to_utf8(&lines, pos(3, 2)), pos(3, 2));
}

#[test]
fn range_conversion_converts_both_ends() {
    let lines = vec!["a😀b", "你好"];
    let range = Range { start: pos(0, 1), end: pos(1, 6) };
    let converted = range_utf8_to_utf16(&lines, range);
    assert_eq!(converted, Range { start: pos(0, 1), end: pos(1, 2) });
    assert_eq!(range_utf16_to_utf8(&lines, converted), range);
}

#[test]
fn make_span_ends_at_position() {
    assert_eq!(make_span(pos(2, 7), 3), Range { start: pos(2, 4), end: pos(2, 7) });
    assert_eq!(make_span(pos(2, 2), 5), Range { start: pos(2, 0), end: pos(2, 2) });
}

#[test]
fn highlight_range_clips_start_column_on_single_line() {
    let tokens = highlight_range(vec![(0, wait_line())], pos(0, 2));
    assert_eq!(
        token_ranges(&tokens),
        vec![(0, 2, 4), (0, 4, 5), (0, 5, 8), (0, 8, 9), (0, 9, 9)]
    );
}

#[test]
fn highlight_range_clips_start_line_only() {
    let tokens = highlight_range(vec![(0, wait_line()), (1, wait_line())], pos(0, 2));
    let ranges = token_ranges(&tokens);
    assert!(ranges.iter().any(|(line, start, _)| *line == 0 && *start == 2));
    assert!(ranges.iter().all(|(line, start, _)| *line != 0 || *start >= 2));
    assert!(ranges.iter().any(|(line, _, end)| *line == 1 && *end == 9));
    assert_eq!(ranges.iter().filter(|(line, _, _)| *line == 1).count(), 5);
}

#[test]
fn highlight_range_from_middle_line() {
    let tokens = highlight_range(vec![(1, wait_line()), (2, wait_line())], pos(1, 0));
    assert_eq!(tokens[0].delta_line, 1);
    let ranges = token_ranges(&tokens);
    assert!(ranges.iter().any(|(line, _, _)| *line == 1));
    assert!(ranges.iter().any(|(line, _, end)| *line == 2 && *end == 9));
}

#[test]
fn highlight_range_drops_line_emptied_by_clipping() {
    let tokens = highlight_range(vec![(0, line_tokens(&[(0, 4), (4, 9)])), (1, wait_line())], pos(0, 9));
    assert_eq!(tokens[0].delta_line, 1);
    assert!(token_ranges(&tokens).iter().all(|(line, _, _)| *line == 1));
}

#[test]
fn highlight_range_keeps_token_straddling_start() {
    let tokens = highlight_range(vec![(3, line_tokens(&[(0, 4), (4, 9)]))], pos(3, 6));
    assert_eq!(token_ranges(&tokens), vec![(3, 6, 9)]);
    assert_eq!(tokens[0].delta_line, 3);
}

#[test]
fn highlight_range_encodes_absolute_lines() {
    let lines = vec!["中文对话:内容;", "wait:456;"];
    let mut tokens = highlight_range(vec![(1, wait_line())], pos(1, 0));
    highlights_utf8_to_utf16(&lines, &mut tokens);
    let flat: Vec<_> = tokens
        .iter()
        .map(|token| (token.delta_line, token.delta_start, token.length))
        .collect();
    assert_eq!(flat, vec![(1, 0, 4), (0, 4, 1), (0, 1, 3), (0, 3, 1), (0, 1, 0)]);
}

#[test]
fn highlights_utf8_to_utf16_counts_units_from_previous_start() {
    let lines = vec!["中文对话:内容;", "a😀b"];
    let mut tokens = line_tokens(&[(0, 12), (12, 13), (13, 19), (19, 20)]);
    let mut second = line_tokens(&[(1, 5), (5, 6)]);
    second[0].delta_line = 1;
    tokens.extend(second);
    highlights_utf8_to_utf16(&lines, &mut tokens);
    let flat: Vec<_> = tokens
        .iter()
        .map(|token| (token.delta_line, token.delta_start, token.length, token.token_type))
        .collect();
    assert_eq!(
        flat,
        vec![
            (0, 0, 4, 1),
            (0, 4, 1, 1),
            (0, 1, 2, 1),
            (0, 2, 1, 1),
            (1, 1, 2, 1),
            (0, 2, 1, 1)
        ]
    );
}

#[test]
fn highlight_range_takes_utf8_columns() {
    // Columns come in as UTF-8 offsets: the caller converts the editor's range first.
    let lines = vec!["中文对话:内容;"];
    let span = range_utf16_to_utf8(&lines, Range { start: pos(0, 1), end: pos(0, 5) });
    let said = line_tokens(&[(0, 12), (12, 13), (13, 19), (19, 20), (20, 20)]);
    let tokens = highlight_range(vec![(0, said)], span.start);
    assert_eq!(
        token_ranges(&tokens),
        vec![(0, 3, 12), (0, 12, 13), (0, 13, 19), (0, 19, 20), (0, 20, 20)]
    );
}
