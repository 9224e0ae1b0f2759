//! What counts as a function, a class, an interface or an import in the
//! syntax tree of each supported language.

use crate::text::{same_text, str_equals, to_chars};
use tree_sitter::Node;
use vstd::prelude::*;

verus! {

/// How the source of one language is chunked, and which kinds of syntax
/// node stand for its structural constructs.
#[derive(Debug)]
pub struct LanguageConfig {
    /// Preferred chunk size, in tokens.
    pub preferred_chunk_size: usize,
    /// Most lines of a chunk.
    pub max_lines: usize,
    /// Whether doc comments are kept.
    pub include_docs: bool,
    /// Whether imports are kept with each chunk.
    pub include_imports: bool,
    /// Kinds of node that define a function.
    pub function_nodes: Vec<&'static str>,
    /// Kinds of node that define a class.
    pub class_nodes: Vec<&'static str>,
    /// Kinds of node that define an interface or a type.
    pub interface_nodes: Vec<&'static str>,
    /// Kinds of node that import something.
    pub import_nodes: Vec<&'static str>,
}

/// What a `LanguageConfig` holds.
pub struct LanguageConfigView {
    pub preferred_chunk_size: nat,
    pub max_lines: nat,
    pub include_docs: bool,
    pub include_imports: bool,
    pub function_nodes: Seq<Seq<char>>,
    pub class_nodes: Seq<Seq<char>>,
    pub interface_nodes: Seq<Seq<char>>,
    pub import_nodes: Seq<Seq<char>>,
}

impl View for LanguageConfig {
    type V = LanguageConfigView;

    open spec fn view(&self) -> LanguageConfigView {
        LanguageConfigView {
            preferred_chunk_size: self.preferred_chunk_size as nat,
            max_lines: self.max_lines as nat,
            include_docs: self.include_docs,
            include_imports: self.include_imports,
            function_nodes: self.function_nodes.deep_view(),
            class_nodes: self.class_nodes.deep_view(),
            interface_nodes: self.interface_nodes.deep_view(),
            import_nodes: self.import_nodes.deep_view(),
        }
    }
}

impl Clone for LanguageConfig {
    fn clone(&self) -> (copy: Self)
        ensures
            copy@ == self@,
    {
        LanguageConfig {
            preferred_chunk_size: self.preferred_chunk_size,
            max_lines: self.max_lines,
            include_docs: self.include_docs,
            include_imports: self.include_imports,
            function_nodes: copy_kinds(&self.function_nodes),
            class_nodes: copy_kinds(&self.class_nodes),
            interface_nodes: copy_kinds(&self.interface_nodes),
            import_nodes: copy_kinds(&self.import_nodes),
        }
    }
}

/// A copy of the kinds of node `kinds`.
fn copy_kinds(kinds: &Vec<&'static str>) -> (copy: Vec<&'static str>)
    ensures
        copy.deep_view() == kinds.deep_view(),
{
    let copy = kinds.clone();
    proof {
        assert forall|i: int| 0 <= i < kinds.len() implies copy@[i]@ == kinds@[i]@ by {
            assert(cloned(kinds@[i], copy@[i]));
        }
        assert(copy.deep_view() =~= kinds.deep_view());
    }
    copy
}

impl LanguageConfigView {
    /// The configuration with the sizes and switches that every language
    /// has, and the given kinds of node.
    pub open spec fn with_nodes(
        function_nodes: Seq<Seq<char>>,
        class_nodes: Seq<Seq<char>>,
        interface_nodes: Seq<Seq<char>>,
        import_nodes: Seq<Seq<char>>,
    ) -> LanguageConfigView {
        LanguageConfigView {
            preferred_chunk_size: 512,
            max_lines: 200,
            include_docs: true,
            include_imports: true,
            function_nodes,
            class_nodes,
            interface_nodes,
            import_nodes,
        }
    }

    /// The configuration of TypeScript and JavaScript.
    pub open spec fn typescript() -> LanguageConfigView {
        Self::with_nodes(
            seq![
                "function_declaration"@,
                "function_expression"@,
                "arrow_function"@,
                "method_definition"@,
                "generator_function_declaration"@,
            ],
            seq!["class_declaration"@, "class_expression"@],
            seq!["interface_declaration"@, "type_alias_declaration"@, "enum_declaration"@],
            seq!["import_statement"@, "import_declaration"@, "export_statement"@],
        )
    }

    /// The configuration of Python.
    pub open spec fn python() -> LanguageConfigView {
        Self::with_nodes(
            seq!["function_definition"@, "lambda"@],
            seq!["class_definition"@],
            Seq::empty(),
            seq!["import_statement"@, "import_from_statement"@, "future_import_statement"@],
        )
    }

    /// The configuration of Rust.
    pub open spec fn rust() -> LanguageConfigView {
        Self::with_nodes(
            seq!["function_item"@, "function_signature_item"@, "closure_expression"@],
            seq!["struct_item"@, "enum_item"@, "impl_item"@],
            seq!["trait_item"@, "type_alias_item"@],
            seq!["use_declaration"@, "mod_item"@, "use_wildcard"@],
        )
    }

    /// The configuration of Go.
    pub open spec fn go() -> LanguageConfigView {
        Self::with_nodes(
            seq!["function_declaration"@, "method_declaration"@],
            seq!["type_declaration"@, "type_spec"@],
            seq!["interface_declaration"@, "interface_type"@],
            seq!["import_declaration"@, "import_spec"@],
        )
    }

    /// The configuration of Java.
    pub open spec fn java() -> LanguageConfigView {
        Self::with_nodes(
            seq!["method_declaration"@, "constructor_declaration"@, "lambda_expression"@],
            seq!["class_declaration"@, "enum_declaration"@, "record_declaration"@],
            seq!["interface_declaration"@, "annotation_declaration"@],
            seq!["import_declaration"@],
        )
    }

    /// The configuration of C++.
    pub open spec fn cpp() -> LanguageConfigView {
        Self::with_nodes(
            seq!["function_definition"@, "function_declarator"@, "lambda_expression"@],
            seq!["class_specifier"@, "struct_specifier"@, "union_specifier"@],
            Seq::empty(),
            seq!["include_declaration"@, "using_declaration"@],
        )
    }
}

/// The configuration under which the language named `language` is chunked.
/// A name that stands for no language gets the configuration of
/// TypeScript.
pub open spec fn config_for(language: Seq<char>) -> LanguageConfigView {
    if language == "typescript"@ || language == "javascript"@ {
        LanguageConfigView::typescript()
    } else if language == "python"@ {
        LanguageConfigView::python()
    } else if language == "rust"@ {
        LanguageConfigView::rust()
    } else if language == "go"@ {
        LanguageConfigView::go()
    } else if language == "java"@ {
        LanguageConfigView::java()
    } else if language == "cpp"@ || language == "c++"@ {
        LanguageConfigView::cpp()
    } else {
        LanguageConfigView::typescript()
    }
}

/// The names of the supported languages.
pub open spec fn supported_ids() -> Seq<Seq<char>> {
    seq!["typescript"@, "javascript"@, "python"@, "rust"@, "go"@, "java"@, "cpp"@]
}

/// Whether `language` names a supported language. Names are compared
/// character by character, so case matters.
pub open spec fn is_supported(language: Seq<char>) -> bool {
    supported_ids().contains(language)
}

/// The name of the kind of the node `node`, as its grammar gives it.
pub uninterp spec fn node_kind(node: Node) -> Seq<char>;

/// Makes `tree_sitter::Node` known as a type of which nothing is seen: a
/// node is carried to `tree_sitter::Node::kind` and not looked into.
#[verifier::external_type_specification]
#[verifier::external_body]
pub struct ExNode<'tree>(Node<'tree>);

/// The kind of `node`, from `tree_sitter::Node::kind`. The call looks up the
/// name that the grammar of the node's tree gives to the node's symbol; that
/// name depends on the node alone, and the contract gives it the name
/// `node_kind` without saying what it is. Every node that a tree hands out
/// has a symbol of its grammar, so the lookup finds a name.
#[verifier::external_body]
fn kind_of_node<'tree>(node: &Node<'tree>) -> (kind: &'tree str)
    ensures
        kind@ == node_kind(*node),
{
    node.kind()
}

/// Whether `kind` is one of `kinds`.
fn lists_kind(kinds: &Vec<&'static str>, kind: &str) -> (found: bool)
    ensures
        found == kinds.deep_view().contains(kind@),
{
    let wanted = to_chars(kind);
    let mut i: usize = 0;
    while i < kinds.len()
        invariant
            i <= kinds.len(),
            wanted@ == kind@,
            forall|k: int| 0 <= k < i ==> kinds.deep_view()[k] != kind@,
        decreases kinds.len() - i,
    {
        let entry = to_chars(kinds[i]);
        if same_text(&entry, &wanted) {
            assert(kinds.deep_view()[i as int] == kind@);
            return true;
        }
        i += 1;
    }
    false
}

impl LanguageConfig {
    /// The configuration of TypeScript and JavaScript.
    pub fn typescript() -> (config: Self)
        ensures
            config@ == LanguageConfigView::typescript(),
    {
        let config = LanguageConfig {
            preferred_chunk_size: 512,
            max_lines: 200,
            include_docs: true,
            include_imports: true,
            function_nodes: vec![
                "function_declaration",
                "function_expression",
                "arrow_function",
                "method_definition",
                "generator_function_declaration",
            ],
            class_nodes: vec!["class_declaration", "class_expression"],
            interface_nodes: vec![
                "interface_declaration",
                "type_alias_declaration",
                "enum_declaration",
            ],
            import_nodes: vec!["import_statement", "import_declaration", "export_statement"],
        };
        proof {
            let view = LanguageConfigView::typescript();
            assert(config@.function_nodes =~= view.function_nodes);
            assert(config@.class_nodes =~= view.class_nodes);
            assert(config@.interface_nodes =~= view.interface_nodes);
            assert(config@.import_nodes =~= view.import_nodes);
        }
        config
    }

    /// The configuration of Python.
    pub fn python() -> (config: Self)
        ensures
            config@ == LanguageConfigView::python(),
    {
        let config = LanguageConfig {
            preferred_chunk_size: 512,
            max_lines: 200,
            include_docs: true,
            include_imports: true,
            function_nodes: vec!["function_definition", "lambda"],
            class_nodes: vec!["class_definition"],
            interface_nodes: Vec::new(),
            import_nodes: vec![
                "import_statement",
                "import_from_statement",
                "future_import_statement",
            ],
        };
        proof {
            let view = LanguageConfigView::python();
            assert(config@.function_nodes =~= view.function_nodes);
            assert(config@.class_nodes =~= view.class_nodes);
            assert(config@.interface_nodes =~= view.interface_nodes);
            assert(config@.import_nodes =~= view.import_nodes);
        }
        config
    }

    /// The configuration of Rust.
    pub fn rust() -> (config: Self)
        ensures
            config@ == LanguageConfigView::rust(),
    {
        let config = LanguageConfig {
            preferred_chunk_size: 512,
            max_lines: 200,
            include_docs: true,
            include_imports: true,
            function_nodes: vec!["function_item", "function_signature_item", "closure_expression"],
            class_nodes: vec!["struct_item", "enum_item", "impl_item"],
            interface_nodes: vec!["trait_item", "type_alias_item"],
            import_nodes: vec!["use_declaration", "mod_item", "use_wildcard"],
        };
        proof {
            let view = LanguageConfigView::rust();
            assert(config@.function_nodes =~= view.function_nodes);
            assert(config@.class_nodes =~= view.class_nodes);
            assert(config@.interface_nodes =~= view.interface_nodes);
            assert(config@.import_nodes =~= view.import_nodes);
        }
        config
    }

    /// The configuration of Go.
    pub fn go() -> (config: Self)
        ensures
            config@ == LanguageConfigView::go(),
    {
        let config = LanguageConfig {
            preferred_chunk_size: 512,
            max_lines: 200,
            include_docs: true,
            include_imports: true,
            function_nodes: vec!["function_declaration", "method_declaration"],
            class_nodes: vec!["type_declaration", "type_spec"],
            interface_nodes: vec!["interface_declaration", "interface_type"],
            import_nodes: vec!["import_declaration", "import_spec"],
        };
        proof {
            let view = LanguageConfigView::go();
            assert(config@.function_nodes =~= view.function_nodes);
            assert(config@.class_nodes =~= view.class_nodes);
            assert(config@.interface_nodes =~= view.interface_nodes);
            assert(config@.import_nodes =~= view.import_nodes);
        }
        config
    }

    /// The configuration of Java.
    pub fn java() -> (config: Self)
        ensures
            config@ == LanguageConfigView::java(),
    {
        let config = LanguageConfig {
            preferred_chunk_size: 512,
            max_lines: 200,
            include_docs: true,
            include_imports: true,
            function_nodes: vec![
                "method_declaration",
                "constructor_declaration",
                "lambda_expression",
            ],
            class_nodes: vec!["class_declaration", "enum_declaration", "record_declaration"],
            interface_nodes: vec!["interface_declaration", "annotation_declaration"],
            import_nodes: vec!["import_declaration"],
        };
        proof {
            let view = LanguageConfigView::java();
            assert(config@.function_nodes =~= view.function_nodes);
            assert(config@.class_nodes =~= view.class_nodes);
            assert(config@.interface_nodes =~= view.interface_nodes);
            assert(config@.import_nodes =~= view.import_nodes);
        }
        config
    }

    /// The configuration of C++.
    pub fn cpp() -> (config: Self)
        ensures
            config@ == LanguageConfigView::cpp(),
    {
        let config = LanguageConfig {
            preferred_chunk_size: 512,
            max_lines: 200,
            include_docs: true,
            include_imports: true,
            function_nodes: vec!["function_definition", "function_declarator", "lambda_expression"],
            class_nodes: vec!["class_specifier", "struct_specifier", "union_specifier"],
            interface_nodes: Vec::new(),
            import_nodes: vec!["include_declaration", "using_declaration"],
        };
        proof {
            let view = LanguageConfigView::cpp();
            assert(config@.function_nodes =~= view.function_nodes);
            assert(config@.class_nodes =~= view.class_nodes);
            assert(config@.interface_nodes =~= view.interface_nodes);
            assert(config@.import_nodes =~= view.import_nodes);
        }
        config
    }

    /// Whether nodes of the kind `kind` define a function.
    pub fn is_function_kind(&self, kind: &str) -> (found: bool)
        ensures
            found == self@.function_nodes.contains(kind@),
    {
        lists_kind(&self.function_nodes, kind)
    }

    /// Whether nodes of the kind `kind` define a class.
    pub fn is_class_kind(&self, kind: &str) -> (found: bool)
        ensures
            found == self@.class_nodes.contains(kind@),
    {
        lists_kind(&self.class_nodes, kind)
    }

    /// Whether nodes of the kind `kind` define an interface or a type.
    pub fn is_interface_kind(&self, kind: &str) -> (found: bool)
        ensures
            found == self@.interface_nodes.contains(kind@),
    {
        lists_kind(&self.interface_nodes, kind)
    }

    /// Whether nodes of the kind `kind` import something.
    pub fn is_import_kind(&self, kind: &str) -> (found: bool)
        ensures
            found == self@.import_nodes.contains(kind@),
    {
        lists_kind(&self.import_nodes, kind)
    }

    /// Whether `node` defines a function.
    pub fn is_function_node(&self, node: &Node) -> (found: bool)
        ensures
            found == self@.function_nodes.contains(node_kind(*node)),
    {
        self.is_function_kind(kind_of_node(node))
    }

    /// Whether `node` defines a class.
    pub fn is_class_node(&self, node: &Node) -> (found: bool)
        ensures
            found == self@.class_nodes.contains(node_kind(*node)),
    {
        self.is_class_kind(kind_of_node(node))
    }

    /// Whether `node` defines an interface or a type.
    pub fn is_interface_node(&self, node: &Node) -> (found: bool)
        ensures
            found == self@.interface_nodes.contains(node_kind(*node)),
    {
        self.is_interface_kind(kind_of_node(node))
    }

    /// Whether `node` imports something.
    pub fn is_import_node(&self, node: &Node) -> (found: bool)
        ensures
            found == self@.import_nodes.contains(node_kind(*node)),
    {
        self.is_import_kind(kind_of_node(node))
    }
}

/// The configuration for the language named `language`; that of TypeScript
/// for a name that stands for no language.
pub fn get_language_config(language: &str) -> (config: LanguageConfig)
    ensures
        config@ == config_for(language@),
        !is_supported(language@) && language@ != "c++"@ ==> config@
            == LanguageConfigView::typescript(),
{
    if str_equals(language, "typescript") || str_equals(language, "javascript") {
        LanguageConfig::typescript()
    } else if str_equals(language, "python") {
        LanguageConfig::python()
    } else if str_equals(language, "rust") {
        LanguageConfig::rust()
    } else if str_equals(language, "go") {
        LanguageConfig::go()
    } else if str_equals(language, "java") {
        LanguageConfig::java()
    } else if str_equals(language, "cpp") || str_equals(language, "c++") {
        LanguageConfig::cpp()
    } else {
        LanguageConfig::typescript()
    }
}

/// Whether `language` names a supported language.
pub fn is_supported_language(language: &str) -> (supported: bool)
    ensures
        supported == is_supported(language@),
{
    let supported = str_equals(language, "typescript") || str_equals(language, "javascript")
        || str_equals(language, "python") || str_equals(language, "rust") || str_equals(
        language,
        "go",
    ) || str_equals(language, "java") || str_equals(language, "cpp");
    proof {
        let ids = supported_ids();
        if supported {
            assert(ids[0] == "typescript"@ && ids[1] == "javascript"@ && ids[2] == "python"@
                && ids[3] == "rust"@ && ids[4] == "go"@ && ids[5] == "java"@ && ids[6] == "cpp"@);
        }
    }
    supported
}

/// The names of the supported languages.
pub fn supported_languages() -> (languages: Vec<&'static str>)
    ensures
        languages.deep_view() == supported_ids(),
{
    let languages = vec!["typescript", "javascript", "python", "rust", "go", "java", "cpp"];
    proof {
        assert(languages.deep_view() =~= supported_ids());
    }
    languages
}

} // verus!
