use prism_indexer::chunker::{
    create_class_chunk, create_function_chunk, create_uncovered_chunks, extract_dependencies,
    find_preceding_context, is_inside_class, mark_lines_covered,
};
use prism_indexer::lines::SourceLines;
use prism_indexer::{
    chunk_code, split_large_chunk, ClassInfo, CodeChunk, Extraction, FunctionInfo, ImportInfo,
};

fn function(name: &str, start_line: usize, end_line: usize) -> FunctionInfo {
    FunctionInfo { name: name.to_string(), start_line, end_line }
}

fn class(name: &str, start_line: usize, end_line: usize, methods: Vec<FunctionInfo>) -> ClassInfo {
    ClassInfo { name: name.to_string(), start_line, end_line, methods }
}

fn import(source: &str, line: usize) -> ImportInfo {
    ImportInfo { source: source.to_string(), start_line: line, end_line: line }
}

fn nothing() -> Extraction {
    Extraction { imports: Vec::new(), functions: Vec::new(), classes: Vec::new() }
}

fn is_uuid(id: &str) -> bool {
    let chars: Vec<char> = id.chars().collect();
    chars.len() == 36
        && chars.iter().enumerate().all(|(i, c)| match i {
            8 | 13 | 18 | 23 => *c == '-',
            _ => c.is_ascii_digit() || ('a'..='f').contains(c),
        })
        && chars[14] == '4'
        && "89ab".contains(chars[19])
}

const MODULE: &str = "import { x } from 'y';\nclass A {\n  m() {\n    return 1;\n  }\n}\n\n// helper\nfunction free() { return 2; }";

fn module_found() -> Extraction {
    Extraction {
        imports: vec![import("y", 1)],
        functions: vec![function("m", 3, 5), function("free", 9, 9)],
        classes: vec![class("A", 2, 6, vec![function("m", 3, 5)])],
    }
}

#[test]
fn test_single_line_function_is_one_structural_chunk() {
    let source = "export function greet(name) { return name; }";
    let found = Extraction {
        imports: Vec::new(),
        functions: vec![function("greet", 1, 1)],
        classes: Vec::new(),
    };
    let chunks = chunk_code(&found, source, "typescript");
    assert_eq!(chunks.len(), 1);
    assert_eq!(chunks[0].start_line, 1);
    assert_eq!(chunks[0].end_line, 1);
    assert_eq!(chunks[0].functions.len(), 1);
    assert_eq!(chunks[0].functions[0], function("greet", 1, 1));
    assert!(chunks[0].classes.is_empty());
    assert_eq!(chunks[0].text, source);
    assert_eq!(chunks[0].tokens, 11);
    assert_eq!(chunks[0].language, "typescript");
    assert!(chunks[0].dependencies.is_empty());
    assert!(is_uuid(&chunks[0].id));
}

#[test]
fn test_long_function_is_one_chunk_until_it_is_split() {
    let mut code = String::from("export function largeFunction() {\n");
    for i in 0..300 {
        code.push_str(&format!("  console.log('{}');\n", i));
    }
    code.push_str("}\n");
    let found = Extraction {
        imports: Vec::new(),
        functions: vec![function("largeFunction", 1, 302)],
        classes: Vec::new(),
    };
    let chunks = chunk_code(&found, &code, "typescript");
    assert_eq!(chunks.len(), 1);
    assert_eq!((chunks[0].start_line, chunks[0].end_line), (1, 302));
    assert_eq!(chunks[0].text.lines().count(), 302);
    assert!(chunks[0].tokens > 512);

    let pieces = split_large_chunk(&chunks[0], 512);
    assert!(pieces.len() > 1);
    assert_eq!(pieces[0].start_line, 1);
    assert_eq!(pieces[pieces.len() - 1].end_line, 302);
    for pair in pieces.windows(2) {
        assert_eq!(pair[1].start_line, pair[0].end_line + 1);
    }
    for piece in &pieces {
        assert!(piece.tokens <= 512);
        assert_eq!(piece.functions, chunks[0].functions);
    }
}

#[test]
fn test_empty_source_has_no_chunk() {
    let chunks = chunk_code(&nothing(), "", "typescript");
    assert!(chunks.is_empty());
}

#[test]
fn test_short_text_without_constructs_has_no_chunk() {
    let source = "const a = 'a long enough line of text to count';\nconst b = 2;\nconst c = 3;\nconst d = 4;";
    assert!(chunk_code(&nothing(), source, "javascript").is_empty());
}

#[test]
fn test_chunks_come_classes_first_then_functions() {
    let chunks = chunk_code(&module_found(), MODULE, "javascript");
    assert_eq!(chunks.len(), 2);

    let class_chunk = &chunks[0];
    assert_eq!((class_chunk.start_line, class_chunk.end_line), (2, 6));
    assert_eq!(class_chunk.text, "class A {\n  m() {\n    return 1;\n  }\n}");
    assert_eq!(class_chunk.tokens, 9);
    assert_eq!(class_chunk.classes, vec![class("A", 2, 6, vec![function("m", 3, 5)])]);
    assert_eq!(class_chunk.functions, vec![function("m", 3, 5)]);
    assert_eq!(class_chunk.imports, vec![import("y", 1)]);
    assert_eq!(class_chunk.language, "javascript");

    let function_chunk = &chunks[1];
    assert_eq!((function_chunk.start_line, function_chunk.end_line), (7, 9));
    assert_eq!(function_chunk.text, "\n// helper\nfunction free() { return 2; }");
    assert_eq!(function_chunk.tokens, 10);
    assert_eq!(function_chunk.functions, vec![function("free", 9, 9)]);
    assert!(function_chunk.classes.is_empty());
    assert_eq!(function_chunk.imports, vec![import("y", 1)]);

    assert!(is_uuid(&class_chunk.id));
    assert!(is_uuid(&function_chunk.id));
    assert_ne!(class_chunk.id, function_chunk.id);
}

#[test]
fn test_every_class_has_one_chunk_with_its_range() {
    let source = (1..=12).map(|i| format!("line {}", i)).collect::<Vec<String>>().join("\n");
    let found = Extraction {
        imports: Vec::new(),
        functions: Vec::new(),
        classes: vec![class("B", 7, 12, Vec::new()), class("A", 1, 3, Vec::new())],
    };
    let chunks = chunk_code(&found, &source, "java");
    for (i, class) in found.classes.iter().enumerate() {
        assert_eq!((chunks[i].start_line, chunks[i].end_line), (class.start_line, class.end_line));
        assert_eq!(chunks[i].classes, vec![class.clone()]);
    }
    let with_class = chunks.iter().filter(|c| !c.classes.is_empty()).count();
    assert_eq!(with_class, 2);
    assert_eq!(chunks[0].text, "line 7\nline 8\nline 9\nline 10\nline 11\nline 12");
    assert_eq!(chunks[1].text, "line 1\nline 2\nline 3");
}

#[test]
fn test_method_within_class_gets_no_chunk() {
    let chunks = chunk_code(&module_found(), MODULE, "javascript");
    let method = function("m", 3, 5);
    for chunk in &chunks {
        if chunk.classes.is_empty() {
            assert!(!chunk.functions.contains(&method));
        }
    }
    assert_eq!(chunks.iter().filter(|c| c.functions.contains(&method)).count(), 1);
}

#[test]
fn test_function_sharing_only_part_of_a_class_keeps_its_chunk() {
    let source = (1..=10).map(|i| format!("row {}", i)).collect::<Vec<String>>().join("\n");
    let found = Extraction {
        imports: Vec::new(),
        functions: vec![function("straddles", 4, 8), function("same", 2, 6)],
        classes: vec![class("A", 2, 6, Vec::new())],
    };
    let chunks = chunk_code(&found, &source, "go");
    assert_eq!(chunks.len(), 2);
    assert_eq!(chunks[1].functions, vec![function("straddles", 4, 8)]);
    assert_eq!((chunks[1].start_line, chunks[1].end_line), (4, 8));
}

#[test]
fn test_structural_chunks_claim_no_line_twice() {
    let source = (1..=30).map(|i| format!("stmt {};", i)).collect::<Vec<String>>().join("\n");
    let found = Extraction {
        imports: Vec::new(),
        functions: vec![
            function("in_a", 3, 4),
            function("f", 12, 15),
            function("g", 16, 20),
            function("in_b", 26, 28),
        ],
        classes: vec![
            class("A", 1, 10, vec![function("in_a", 3, 4)]),
            class("B", 25, 30, vec![function("in_b", 26, 28)]),
        ],
    };
    let chunks = chunk_code(&found, &source, "typescript");
    let structural: Vec<&CodeChunk> =
        chunks.iter().filter(|c| !c.classes.is_empty() || !c.functions.is_empty()).collect();
    assert_eq!(structural.len(), 4);
    let claimed: Vec<(usize, usize)> = structural
        .iter()
        .map(|c| {
            if c.classes.is_empty() {
                (c.functions[0].start_line, c.functions[0].end_line)
            } else {
                (c.classes[0].start_line, c.classes[0].end_line)
            }
        })
        .collect();
    assert_eq!(claimed, vec![(1, 10), (25, 30), (12, 15), (16, 20)]);
    for a in 0..claimed.len() {
        for b in (a + 1)..claimed.len() {
            assert!(claimed[a].1 < claimed[b].0 || claimed[b].1 < claimed[a].0);
        }
    }
}

#[test]
fn test_every_function_signature_is_in_a_chunk() {
    let found = module_found();
    let chunks = chunk_code(&found, MODULE, "javascript");
    let lines: Vec<&str> = MODULE.lines().collect();
    for function in &found.functions {
        let signature = lines[function.start_line - 1];
        assert!(chunks.iter().any(|c| c.text.contains(signature)));
    }
}

#[test]
fn test_chunks_of_fitting_descriptors_are_well_formed() {
    let chunks = chunk_code(&module_found(), MODULE, "javascript");
    for chunk in &chunks {
        assert!(1 <= chunk.start_line && chunk.start_line <= chunk.end_line);
        assert!(chunk.text.lines().count() <= chunk.end_line - chunk.start_line + 1);
    }
}

#[test]
fn test_context_stops_at_first_line_that_is_no_context() {
    let lines = SourceLines::parse("// a\ncode();\n// b\nfn f() {}");
    assert_eq!(find_preceding_context(&lines, 3), 2);
}

#[test]
fn test_context_is_at_most_three_lines() {
    let lines = SourceLines::parse("// 1\n// 2\n// 3\n// 4\nfn f() {}");
    assert_eq!(find_preceding_context(&lines, 4), 1);
}

#[test]
fn test_context_takes_blank_comment_and_star_lines() {
    let lines = SourceLines::parse("\n  * doc\n\t// note\nfn f() {}");
    assert_eq!(find_preceding_context(&lines, 3), 0);
    let block = SourceLines::parse("/**\n * a\n */\nfn f() {}");
    assert_eq!(find_preceding_context(&block, 3), 1);
}

#[test]
fn test_context_of_first_line_and_of_code_below_code() {
    let lines = SourceLines::parse("x();\nfn f() {}");
    assert_eq!(find_preceding_context(&lines, 0), 0);
    assert_eq!(find_preceding_context(&lines, 1), 1);
    assert_eq!(find_preceding_context(&lines, 2), 2);
    let hash = SourceLines::parse("# not a marker\ndef f():");
    assert_eq!(find_preceding_context(&hash, 1), 1);
}

#[test]
fn test_context_is_part_of_the_chunk_and_not_claimed() {
    let source = "// one\n// two\n// three\n// four\n// five\n// six, which makes this comment block long enough\nfunction f() {}";
    let found = Extraction {
        imports: Vec::new(),
        functions: vec![function("f", 7, 7)],
        classes: Vec::new(),
    };
    let chunks = chunk_code(&found, source, "javascript");
    assert_eq!(chunks.len(), 2);
    assert_eq!((chunks[0].start_line, chunks[0].end_line), (4, 7));
    assert_eq!(
        chunks[0].text,
        "// four\n// five\n// six, which makes this comment block long enough\nfunction f() {}"
    );
    assert_eq!((chunks[1].start_line, chunks[1].end_line), (1, 6));
    assert!(chunks[1].functions.is_empty());
}

#[test]
fn test_mark_lines_covered_clamps_to_the_record() {
    let mut covered = vec![false; 5];
    mark_lines_covered(&mut covered, 2, 3);
    assert_eq!(covered, vec![false, true, true, false, false]);
    mark_lines_covered(&mut covered, 5, 100);
    assert_eq!(covered, vec![false, true, true, false, true]);
    mark_lines_covered(&mut covered, 0, 1);
    assert_eq!(covered, vec![true, true, true, false, true]);
    mark_lines_covered(&mut covered, 4, 2);
    mark_lines_covered(&mut covered, 9, 12);
    assert_eq!(covered, vec![true, true, true, false, true]);
    let mut none: Vec<bool> = Vec::new();
    mark_lines_covered(&mut none, 1, 3);
    assert!(none.is_empty());
}

#[test]
fn test_is_inside_class_needs_the_whole_range_inside() {
    let classes = vec![class("A", 10, 20, Vec::new()), class("B", 30, 40, Vec::new())];
    assert!(is_inside_class(&function("a", 10, 20), &classes));
    assert!(is_inside_class(&function("b", 31, 39), &classes));
    assert!(!is_inside_class(&function("c", 9, 12), &classes));
    assert!(!is_inside_class(&function("d", 18, 21), &classes));
    assert!(!is_inside_class(&function("e", 15, 35), &classes));
    assert!(!is_inside_class(&function("f", 1, 2), &Vec::new()));
}

#[test]
fn test_extract_dependencies_keeps_order_and_repeats() {
    let text = "  import a from 'a';\nuse std::fmt;\n\tconst x = require('x');\nrequire('y')\nimport a from 'a';\nimporting();\nuse\nuse  two\n  use one  ";
    assert_eq!(
        extract_dependencies(text),
        vec!["import a from 'a';", "use std::fmt;", "require('y')", "import a from 'a';", "use  two", "use one"]
    );
    assert!(extract_dependencies("").is_empty());
    assert!(extract_dependencies("Import x\nUSE y\nrequire ('z')").is_empty());
}

#[test]
fn test_leftover_run_of_five_lines_is_chunked() {
    let source = "import a from 'module-a';\nimport b from 'module-b';\nconst c = a + b;\nconst d = c * 2;\nconsole.log(d);";
    let found = Extraction { imports: vec![import("module-a", 1)], ..nothing() };
    let chunks = chunk_code(&found, source, "javascript");
    assert_eq!(chunks.len(), 1);
    assert_eq!((chunks[0].start_line, chunks[0].end_line), (1, 5));
    assert_eq!(chunks[0].text, source);
    assert_eq!(chunks[0].tokens, source.len() / 4);
    assert!(chunks[0].functions.is_empty());
    assert!(chunks[0].classes.is_empty());
    assert_eq!(chunks[0].imports, vec![import("module-a", 1)]);
    assert_eq!(chunks[0].dependencies, vec!["import a from 'module-a';", "import b from 'module-b';"]);
    assert!(is_uuid(&chunks[0].id));
}

#[test]
fn test_leftover_run_below_five_lines_is_dropped() {
    let source = "const a = 'a long enough line of text to count';\nconst b = 2;\nconst c = 3;\nconst d = 4;\nfunction f() {}";
    let found = Extraction {
        imports: Vec::new(),
        functions: vec![function("f", 5, 5)],
        classes: Vec::new(),
    };
    let chunks = chunk_code(&found, source, "javascript");
    assert_eq!(chunks.len(), 1);
    assert_eq!(chunks[0].functions.len(), 1);
}

#[test]
fn test_leftover_window_without_substance_is_dropped() {
    assert!(chunk_code(&nothing(), "a\nb\nc\nd\ne\nf", "python").is_empty());
    assert!(chunk_code(&nothing(), "   \n\t\n \n\n  \n    \n \n", "python").is_empty());
    let forty_nine = format!("{}\n\n\n\n  ", "x".repeat(49));
    assert!(chunk_code(&nothing(), &forty_nine, "python").is_empty());
    let fifty = format!("  {}\n\n\n\n  ", "x".repeat(50));
    assert_eq!(chunk_code(&nothing(), &fifty, "python").len(), 1);
}

#[test]
fn test_leftover_lines_are_cut_into_windows_of_two_hundred() {
    let source = (1..=450)
        .map(|i| format!("const value_{} = compute_something_rather_long({});", i, i))
        .collect::<Vec<String>>()
        .join("\n");
    let chunks = chunk_code(&nothing(), &source, "javascript");
    let ranges: Vec<(usize, usize)> = chunks.iter().map(|c| (c.start_line, c.end_line)).collect();
    assert_eq!(ranges, vec![(1, 200), (201, 400), (401, 450)]);
    assert_eq!(chunks[2].text.lines().count(), 50);
    assert!(chunks[1].text.starts_with("const value_201 "));
}

#[test]
fn test_last_window_may_be_a_single_line() {
    let source = (1..=201)
        .map(|i| format!("const value_{} = compute_something_rather_long({});", i, i))
        .collect::<Vec<String>>()
        .join("\n");
    let chunks = chunk_code(&nothing(), &source, "javascript");
    let ranges: Vec<(usize, usize)> = chunks.iter().map(|c| (c.start_line, c.end_line)).collect();
    assert_eq!(ranges, vec![(1, 200), (201, 201)]);
}

#[test]
fn test_runs_between_constructs_are_chunked_apart() {
    let filler = "let filler_line = 'some text that is long enough';";
    let mut rows: Vec<String> = Vec::new();
    for _ in 0..5 {
        rows.push(filler.to_string());
    }
    rows.push("function f() {}".to_string());
    for _ in 0..6 {
        rows.push(filler.to_string());
    }
    let source = rows.join("\n");
    let found = Extraction {
        imports: Vec::new(),
        functions: vec![function("f", 6, 6)],
        classes: Vec::new(),
    };
    let chunks = chunk_code(&found, &source, "javascript");
    let ranges: Vec<(usize, usize)> = chunks.iter().map(|c| (c.start_line, c.end_line)).collect();
    assert_eq!(ranges, vec![(6, 6), (1, 5), (7, 12)]);
}

#[test]
fn test_descriptors_beyond_the_text_are_cut_to_it() {
    let source = "a();\nb();";
    let found = Extraction {
        imports: Vec::new(),
        functions: vec![function("late", 5, 9), function("upside_down", 2, 1), function("zero", 0, 1)],
        classes: Vec::new(),
    };
    let chunks = chunk_code(&found, source, "rust");
    assert_eq!(chunks.len(), 3);
    assert_eq!(chunks[0].text, "");
    assert_eq!(chunks[0].tokens, 0);
    assert_eq!((chunks[0].start_line, chunks[0].end_line), (3, 9));
    assert_eq!(chunks[1].text, "");
    assert_eq!((chunks[1].start_line, chunks[1].end_line), (2, 1));
    assert_eq!(chunks[2].text, "a();");
    assert_eq!((chunks[2].start_line, chunks[2].end_line), (1, 1));

    let long = Extraction {
        imports: Vec::new(),
        functions: Vec::new(),
        classes: vec![class("Long", 2, 50, Vec::new())],
    };
    let chunks = chunk_code(&long, source, "rust");
    assert_eq!(chunks.len(), 1);
    assert_eq!(chunks[0].text, "b();");
    assert_eq!((chunks[0].start_line, chunks[0].end_line), (2, 50));

    let on_nothing = chunk_code(&long, "", "rust");
    assert_eq!(on_nothing.len(), 1);
    assert_eq!(on_nothing[0].text, "");
}

#[test]
fn test_unknown_language_is_kept_as_given() {
    let source = "IDENTIFICATION DIVISION.";
    let found = Extraction {
        imports: Vec::new(),
        functions: vec![function("main", 1, 1)],
        classes: Vec::new(),
    };
    let chunks = chunk_code(&found, source, "cobol");
    assert_eq!(chunks[0].language, "cobol");
}

#[test]
fn test_chunk_builders_agree_with_chunk_code() {
    let lines = SourceLines::parse(MODULE);
    let found = module_found();
    let class_chunk = create_class_chunk(&found.classes[0], &lines, "javascript", &found.imports);
    assert_eq!(class_chunk.text, "class A {\n  m() {\n    return 1;\n  }\n}");
    let function_chunk =
        create_function_chunk(&found.functions[1], &lines, "javascript", &found.imports);
    assert_eq!(function_chunk.start_line, 7);
    let covered = vec![false, true, true, true, true, true, false, false, true];
    assert!(create_uncovered_chunks(&covered, &lines, "javascript", &found.imports).is_empty());
}

#[test]
fn test_text_counts_characters_not_bytes() {
    let source = "// héllo wörld ünïcödé çömmént\nfunction f() {}";
    let found = Extraction {
        imports: Vec::new(),
        functions: vec![function("f", 2, 2)],
        classes: Vec::new(),
    };
    let chunks = chunk_code(&found, source, "javascript");
    assert_eq!(chunks[0].text, source);
    assert_eq!(chunks[0].tokens, source.chars().count() / 4);
}
