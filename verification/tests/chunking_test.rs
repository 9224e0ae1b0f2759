use prism_indexer::{
    chunk_code, get_language_config, split_large_chunk, ClassInfo, CodeChunk, Extraction,
    FunctionInfo, ImportInfo, LanguageConfig,
};
use tree_sitter::{Node, Parser};

/// Helper function to create a parser for a language
fn create_parser(language: &str) -> Parser {
    let mut parser = Parser::new();
    let language_obj: tree_sitter::Language = match language {
        "typescript" => tree_sitter_typescript::LANGUAGE_TYPESCRIPT.into(),
        "javascript" => tree_sitter_javascript::LANGUAGE.into(),
        "python" => tree_sitter_python::LANGUAGE.into(),
        "rust" => tree_sitter_rust::LANGUAGE.into(),
        "go" => tree_sitter_go::LANGUAGE.into(),
        "java" => tree_sitter_java::LANGUAGE.into(),
        _ => panic!("Unsupported language: {}", language),
    };
    parser.set_language(&language_obj).unwrap();
    parser
}

/// The name of a construct: the text of its `name` field, or of its `type`
/// field where it has no name of its own.
fn name_of(node: &Node, source: &str) -> String {
    let named = node.child_by_field_name("name").or_else(|| node.child_by_field_name("type"));
    match named {
        Some(name) => name.utf8_text(source.as_bytes()).unwrap_or("").to_string(),
        None => String::new(),
    }
}

/// The first line of a construct, 1-based. Where the configuration keeps doc
/// comments, a comment that ends on the line above the construct belongs to
/// it.
fn first_line_of(node: &Node, config: &LanguageConfig) -> usize {
    let row = node.start_position().row;
    let mut outer = *node;
    while let Some(parent) = outer.parent() {
        if parent.parent().is_some() && parent.start_position().row == row {
            outer = parent;
        } else {
            break;
        }
    }
    if config.include_docs {
        if let Some(above) = outer.prev_sibling() {
            if above.kind() == "comment" && above.end_position().row + 1 == row {
                return above.start_position().row + 1;
            }
        }
    }
    row + 1
}

fn function_of(node: &Node, source: &str, config: &LanguageConfig) -> FunctionInfo {
    FunctionInfo {
        name: name_of(node, source),
        start_line: first_line_of(node, config),
        end_line: node.end_position().row + 1,
    }
}

fn methods_of(node: &Node, source: &str, config: &LanguageConfig, methods: &mut Vec<FunctionInfo>) {
    for i in 0..node.child_count() {
        let child = node.child(i as u32).unwrap();
        if config.is_function_node(&child) {
            methods.push(function_of(&child, source, config));
        }
        methods_of(&child, source, config, methods);
    }
}

fn collect(node: &Node, source: &str, config: &LanguageConfig, found: &mut Extraction) {
    if config.is_import_node(node) {
        found.imports.push(ImportInfo {
            source: node.utf8_text(source.as_bytes()).unwrap_or("").to_string(),
            start_line: node.start_position().row + 1,
            end_line: node.end_position().row + 1,
        });
    }
    if config.is_function_node(node) {
        found.functions.push(function_of(node, source, config));
    }
    if config.is_class_node(node) {
        let mut methods = Vec::new();
        methods_of(node, source, config, &mut methods);
        found.classes.push(ClassInfo {
            name: name_of(node, source),
            start_line: first_line_of(node, config),
            end_line: node.end_position().row + 1,
            methods,
        });
    }
    for i in 0..node.child_count() {
        collect(&node.child(i as u32).unwrap(), source, config, found);
    }
}

/// What a walk over the syntax tree finds, by the node kinds of the
/// language's configuration.
fn extract(root: &Node, source: &str, language: &str) -> Extraction {
    let config = get_language_config(language);
    let mut found = Extraction { imports: Vec::new(), functions: Vec::new(), classes: Vec::new() };
    collect(root, source, &config, &mut found);
    found
}

fn chunk_tree(root: &Node, source: &str, language: &str) -> Vec<CodeChunk> {
    chunk_code(&extract(root, source, language), source, language)
}

#[test]
fn test_simple_function_chunking() {
    let code = r#"
export function greet(name: string): string {
  return `Hello, ${name}!`;
}
"#;

    let mut parser = create_parser("typescript");
    let tree = parser.parse(code, None).unwrap();
    let chunks = chunk_tree(&tree.root_node(), code, "typescript");

    // Should have at least one chunk
    assert!(!chunks.is_empty());

    // First chunk should contain the function; the blank line above the
    // function is attached to it as context
    let first_chunk = &chunks[0];
    assert!(first_chunk.text.contains("function greet"));
    assert_eq!(first_chunk.functions[0].start_line, 2);
    assert_eq!(first_chunk.start_line, 1);
    assert_eq!(first_chunk.end_line, 4);
}

#[test]
fn test_multiple_functions() {
    let code = r#"
export function add(a: number, b: number): number {
  return a + b;
}

export function subtract(a: number, b: number): number {
  return a - b;
}

export function multiply(a: number, b: number): number {
  return a * b;
}
"#;

    let mut parser = create_parser("typescript");
    let tree = parser.parse(code, None).unwrap();
    let chunks = chunk_tree(&tree.root_node(), code, "typescript");

    // Should have multiple chunks (one per function)
    assert!(chunks.len() >= 3, "Expected at least 3 chunks, got {}", chunks.len());

    // Verify each function is in a chunk
    for chunk in &chunks {
        if chunk.text.contains("function") {
            assert!(chunk.functions.len() >= 1);
        }
    }
}

#[test]
fn test_class_chunking() {
    let code = r#"
export class Calculator {
  public add(a: number, b: number): number {
    return a + b;
  }

  public subtract(a: number, b: number): number {
    return a - b;
  }

  public multiply(a: number, b: number): number {
    return a * b;
  }
}
"#;

    let mut parser = create_parser("typescript");
    let tree = parser.parse(code, None).unwrap();
    let chunks = chunk_tree(&tree.root_node(), code, "typescript");

    // Should have at least one chunk
    assert!(!chunks.is_empty());

    // Find the class chunk
    let class_chunk = chunks.iter().find(|c| c.text.contains("class Calculator"));
    assert!(class_chunk.is_some(), "Class chunk not found");

    let class_chunk = class_chunk.unwrap();
    assert!(class_chunk.classes.len() >= 1);
    assert_eq!(class_chunk.classes[0].name, "Calculator");
}

#[test]
fn test_chunk_size_limits() {
    // Create a large function
    let mut code = String::from("export function largeFunction() {\n");
    for i in 0..300 {
        code.push_str(&format!("  console.log('{}');\n", i));
    }
    code.push_str("}\n");

    let mut parser = create_parser("typescript");
    let tree = parser.parse(&code, None).unwrap();
    let chunks = chunk_tree(&tree.root_node(), &code, "typescript");

    // Should have at least one chunk
    assert!(!chunks.is_empty());

    // If chunk is too large, verify it can be split
    let large_chunk = chunks.iter().find(|c| c.tokens > 512);
    assert!(large_chunk.is_some());
    if let Some(chunk) = large_chunk {
        let split_chunks = split_large_chunk(chunk, 512);
        assert!(split_chunks.len() > 1, "Large chunk should be split");
    }
}

#[test]
fn test_context_preservation() {
    let code = r#"
/**
 * Calculate the factorial of a number
 * @param n - The number to calculate factorial for
 * @returns The factorial result
 */
export function factorial(n: number): number {
  if (n <= 1) return 1;
  return n * factorial(n - 1);
}
"#;

    let mut parser = create_parser("typescript");
    let tree = parser.parse(code, None).unwrap();
    let chunks = chunk_tree(&tree.root_node(), code, "typescript");

    // Chunk should include the JSDoc comment
    let chunk = &chunks[0];
    assert!(chunk.text.contains("/**"));
    assert!(chunk.text.contains("@param"));
    assert!(chunk.text.contains("@returns"));
}

#[test]
fn test_python_chunking() {
    let code = r#"
def greet(name: str) -> str:
    """Greet someone by name."""
    return f"Hello, {name}!"

class User:
    def __init__(self, name: str):
        self.name = name

    def get_name(self) -> str:
        return self.name
"#;

    let mut parser = create_parser("python");
    let tree = parser.parse(code, None).unwrap();
    let chunks = chunk_tree(&tree.root_node(), code, "python");

    // Should have chunks
    assert!(!chunks.is_empty());

    // Should find the function
    let func_chunk = chunks.iter().find(|c| c.text.contains("def greet"));
    assert!(func_chunk.is_some());

    // Should find the class
    let class_chunk = chunks.iter().find(|c| c.text.contains("class User"));
    assert!(class_chunk.is_some());
}

#[test]
fn test_rust_chunking() {
    let code = r#"
pub fn add(a: i32, b: i32) -> i32 {
    a + b
}

pub struct User {
    id: u32,
    name: String,
}

impl User {
    pub fn new(id: u32, name: String) -> Self {
        Self { id, name }
    }
}
"#;

    let mut parser = create_parser("rust");
    let tree = parser.parse(code, None).unwrap();
    let chunks = chunk_tree(&tree.root_node(), code, "rust");

    // Should have chunks
    assert!(!chunks.is_empty());

    // Should find the function
    let func_chunk = chunks.iter().find(|c| c.text.contains("pub fn add"));
    assert!(func_chunk.is_some());

    // Should find the struct
    let struct_chunk = chunks.iter().find(|c| c.text.contains("pub struct User"));
    assert!(struct_chunk.is_some());
}

#[test]
fn test_chunk_token_estimation() {
    let code = "export function test() { return 'hello world'; }";
    let tokens = code.len() / 4;

    // Verify token estimation is reasonable
    assert!(tokens > 0);
    assert!(tokens < 100);
    assert_eq!(prism_indexer::chunker::estimate_tokens(code), tokens);
}

#[test]
fn test_import_extraction() {
    let code = r#"
import { useState, useEffect } from 'react';
import type { User } from './types';
import { Helper } from '../helper';

export function myComponent() {
  return <div>Hello</div>;
}
"#;

    let mut parser = create_parser("typescript");
    let tree = parser.parse(code, None).unwrap();
    let chunks = chunk_tree(&tree.root_node(), code, "typescript");

    // Should have chunks with imports
    let chunk_with_imports = chunks.iter().find(|c| !c.imports.is_empty());
    assert!(chunk_with_imports.is_some());

    let chunk = chunk_with_imports.unwrap();
    assert!(chunk.imports.len() >= 3);
}

#[test]
fn test_empty_file() {
    let code = "";
    let mut parser = create_parser("typescript");
    let tree = parser.parse(code, None).unwrap();
    let chunks = chunk_tree(&tree.root_node(), code, "typescript");

    // Should handle empty files gracefully
    assert!(chunks.is_empty());
}

#[test]
fn test_syntax_error_handling() {
    let code = r#"
export function broken(
  // Missing closing parenthesis
  return 42;
}
"#;

    let mut parser = create_parser("typescript");
    let tree = parser.parse(code, None).unwrap();
    let has_errors = tree.root_node().has_error();

    // Should detect syntax errors
    assert!(has_errors);

    // Should still produce chunks
    let chunks = chunk_tree(&tree.root_node(), code, "typescript");
    assert!(!chunks.is_empty());
}

#[test]
fn test_large_class_splitting() {
    let mut code = String::from("export class LargeClass {\n");

    // Add many methods
    for i in 0..50 {
        code.push_str(&format!(
            r#"
  public method{}(): void {{
    console.log("Method {}");
  }}
"#,
            i, i
        ));
    }

    code.push_str("}\n");

    let mut parser = create_parser("typescript");
    let tree = parser.parse(&code, None).unwrap();
    let chunks = chunk_tree(&tree.root_node(), &code, "typescript");

    // Should have at least one chunk for the class
    assert!(!chunks.is_empty());

    // Find the class chunk
    let class_chunk = chunks.iter().find(|c| c.text.contains("class LargeClass"));
    assert!(class_chunk.is_some());

    // If the class is too large, it should be split
    let class_chunk = class_chunk.unwrap();
    assert!(class_chunk.tokens > 512);
    if class_chunk.tokens > 512 {
        let split_chunks = split_large_chunk(class_chunk, 512);
        assert!(split_chunks.len() > 1, "Large class should be split");
    }
}

#[test]
fn test_tree_nodes_are_classified_by_kind() {
    let code = "import { a } from 'a';\ninterface Shape { area(): number }\nclass Box {\n  size() { return 1; }\n}\n";
    let mut parser = create_parser("typescript");
    let tree = parser.parse(code, None).unwrap();
    let root = tree.root_node();
    let config = LanguageConfig::typescript();

    let import = root.child(0).unwrap();
    assert_eq!(import.kind(), "import_statement");
    assert!(config.is_import_node(&import));
    assert!(!config.is_function_node(&import));
    assert!(!config.is_class_node(&import));
    assert!(!config.is_interface_node(&import));

    let interface = root.child(1).unwrap();
    assert_eq!(interface.kind(), "interface_declaration");
    assert!(config.is_interface_node(&interface));
    assert!(!config.is_class_node(&interface));

    let class = root.child(2).unwrap();
    assert_eq!(class.kind(), "class_declaration");
    assert!(config.is_class_node(&class));
    assert!(!config.is_function_node(&class));
    assert!(!config.is_import_node(&class));

    let body = class.child_by_field_name("body").unwrap();
    let method = body.named_child(0).unwrap();
    assert_eq!(method.kind(), "method_definition");
    assert!(config.is_function_node(&method));
    assert!(!config.is_class_node(&method));

    assert!(!config.is_function_node(&root));
    assert!(!LanguageConfig::python().is_class_node(&class));
}

#[test]
fn test_methods_of_a_parsed_class_get_no_chunk() {
    let code = "class Box {\n  size() {\n    return 1;\n  }\n}\n\nfunction free() {\n  return 2;\n}\n";
    let mut parser = create_parser("javascript");
    let tree = parser.parse(code, None).unwrap();
    let found = extract(&tree.root_node(), code, "javascript");
    assert_eq!(found.classes.len(), 1);
    assert_eq!(found.functions.len(), 2);

    let chunks = chunk_code(&found, code, "javascript");
    assert_eq!(chunks.len(), 2);
    assert_eq!((chunks[0].start_line, chunks[0].end_line), (1, 5));
    assert_eq!(chunks[0].classes[0].name, "Box");
    assert_eq!(chunks[0].functions.len(), 1);
    assert_eq!(chunks[0].functions[0].name, "size");
    assert_eq!(chunks[1].functions[0].name, "free");
    assert_eq!((chunks[1].start_line, chunks[1].end_line), (6, 9));
    assert!(chunks[1].classes.is_empty());
}
