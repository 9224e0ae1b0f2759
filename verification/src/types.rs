//! Structural descriptors, chunks, and their mathematical views.

use crate::lines::lines_of;
use vstd::prelude::*;

verus! {

/// A function found in a source file, with its 1-based inclusive line range.
#[derive(Debug, PartialEq, Eq)]
pub struct FunctionInfo {
    pub name: String,
    pub start_line: usize,
    pub end_line: usize,
}

/// What a `FunctionInfo` holds.
pub struct FunctionView {
    pub name: Seq<char>,
    pub start_line: nat,
    pub end_line: nat,
}

impl View for FunctionInfo {
    type V = FunctionView;

    open spec fn view(&self) -> FunctionView {
        FunctionView {
            name: self.name@,
            start_line: self.start_line as nat,
            end_line: self.end_line as nat,
        }
    }
}

impl DeepView for FunctionInfo {
    type V = FunctionView;

    open spec fn deep_view(&self) -> FunctionView {
        self@
    }
}

impl Clone for FunctionInfo {
    fn clone(&self) -> (copy: Self)
        ensures
            copy@ == self@,
    {
        FunctionInfo {
            name: self.name.clone(),
            start_line: self.start_line,
            end_line: self.end_line,
        }
    }
}

/// A class found in a source file, with its 1-based inclusive line range and
/// its methods.
#[derive(Debug, PartialEq, Eq)]
pub struct ClassInfo {
    pub name: String,
    pub start_line: usize,
    pub end_line: usize,
    pub methods: Vec<FunctionInfo>,
}

/// What a `ClassInfo` holds.
pub struct ClassView {
    pub name: Seq<char>,
    pub start_line: nat,
    pub end_line: nat,
    pub methods: Seq<FunctionView>,
}

impl View for ClassInfo {
    type V = ClassView;

    open spec fn view(&self) -> ClassView {
        ClassView {
            name: self.name@,
            start_line: self.start_line as nat,
            end_line: self.end_line as nat,
            methods: self.methods.deep_view(),
        }
    }
}

impl DeepView for ClassInfo {
    type V = ClassView;

    open spec fn deep_view(&self) -> ClassView {
        self@
    }
}

impl Clone for ClassInfo {
    fn clone(&self) -> (copy: Self)
        ensures
            copy@ == self@,
    {
        ClassInfo {
            name: self.name.clone(),
            start_line: self.start_line,
            end_line: self.end_line,
            methods: copy_functions(&self.methods),
        }
    }
}

/// An import or use statement found in a source file: what it imports from,
/// and its 1-based inclusive line range.
#[derive(Debug, PartialEq, Eq)]
pub struct ImportInfo {
    pub source: String,
    pub start_line: usize,
    pub end_line: usize,
}

/// What an `ImportInfo` holds.
pub struct ImportView {
    pub source: Seq<char>,
    pub start_line: nat,
    pub end_line: nat,
}

impl View for ImportInfo {
    type V = ImportView;

    open spec fn view(&self) -> ImportView {
        ImportView {
            source: self.source@,
            start_line: self.start_line as nat,
            end_line: self.end_line as nat,
        }
    }
}

impl DeepView for ImportInfo {
    type V = ImportView;

    open spec fn deep_view(&self) -> ImportView {
        self@
    }
}

impl Clone for ImportInfo {
    fn clone(&self) -> (copy: Self)
        ensures
            copy@ == self@,
    {
        ImportInfo {
            source: self.source.clone(),
            start_line: self.start_line,
            end_line: self.end_line,
        }
    }
}

/// What a structural extractor found in one source file: its imports, its
/// functions and its classes, each in the order in which they were found.
#[derive(Debug, PartialEq, Eq)]
pub struct Extraction {
    pub imports: Vec<ImportInfo>,
    pub functions: Vec<FunctionInfo>,
    pub classes: Vec<ClassInfo>,
}

/// What an `Extraction` holds.
pub struct ExtractionView {
    pub imports: Seq<ImportView>,
    pub functions: Seq<FunctionView>,
    pub classes: Seq<ClassView>,
}

impl View for Extraction {
    type V = ExtractionView;

    open spec fn view(&self) -> ExtractionView {
        ExtractionView {
            imports: self.imports.deep_view(),
            functions: self.functions.deep_view(),
            classes: self.classes.deep_view(),
        }
    }
}

/// A run of source lines picked for indexing, with what is known of it.
#[derive(Debug, PartialEq, Eq)]
pub struct CodeChunk {
    pub id: String,
    pub text: String,
    pub start_line: usize,
    pub end_line: usize,
    pub tokens: usize,
    pub language: String,
    pub functions: Vec<FunctionInfo>,
    pub classes: Vec<ClassInfo>,
    pub imports: Vec<ImportInfo>,
    pub dependencies: Vec<String>,
}

/// What a `CodeChunk` says of the source: everything but its identifier,
/// which tells chunks apart and carries nothing of the source.
pub struct ChunkView {
    pub text: Seq<char>,
    pub start_line: nat,
    pub end_line: nat,
    pub tokens: nat,
    pub language: Seq<char>,
    pub functions: Seq<FunctionView>,
    pub classes: Seq<ClassView>,
    pub imports: Seq<ImportView>,
    pub dependencies: Seq<Seq<char>>,
}

impl ChunkView {
    /// Whether the chunk is sound in itself: its line range starts at line
    /// 1 or later and holds a line, its text has no more lines than its
    /// range, and an empty text counts no token.
    pub open spec fn well_formed(self) -> bool {
        &&& 1 <= self.start_line <= self.end_line
        &&& lines_of(self.text).len() <= self.end_line - self.start_line + 1
        &&& self.text.len() == 0 ==> self.tokens == 0
    }
}

/// Whether each of `chunks` is well-formed.
pub open spec fn all_well_formed(chunks: Seq<ChunkView>) -> bool {
    forall|k: int| 0 <= k < chunks.len() ==> (#[trigger] chunks[k]).well_formed()
}

impl FunctionView {
    /// Whether the function names lines of a text of `n` lines: its range
    /// starts at line 1 or later, ends within the text, and holds a line.
    pub open spec fn fits(self, n: nat) -> bool {
        1 <= self.start_line <= self.end_line <= n
    }
}

impl ClassView {
    /// Whether the class names lines of a text of `n` lines: its range
    /// starts at line 1 or later, ends within the text, and holds a line.
    pub open spec fn fits(self, n: nat) -> bool {
        1 <= self.start_line <= self.end_line <= n
    }
}

impl ExtractionView {
    /// Whether every class and function names lines of a text of `n`
    /// lines.
    pub open spec fn fits(self, n: nat) -> bool {
        &&& forall|c: int| 0 <= c < self.classes.len() ==> (#[trigger] self.classes[c]).fits(n)
        &&& forall|f: int| 0 <= f < self.functions.len() ==> (#[trigger] self.functions[f]).fits(n)
    }
}

impl View for CodeChunk {
    type V = ChunkView;

    open spec fn view(&self) -> ChunkView {
        ChunkView {
            text: self.text@,
            start_line: self.start_line as nat,
            end_line: self.end_line as nat,
            tokens: self.tokens as nat,
            language: self.language@,
            functions: self.functions.deep_view(),
            classes: self.classes.deep_view(),
            imports: self.imports.deep_view(),
            dependencies: self.dependencies.deep_view(),
        }
    }
}

impl DeepView for CodeChunk {
    type V = ChunkView;

    open spec fn deep_view(&self) -> ChunkView {
        self@
    }
}

impl Clone for CodeChunk {
    fn clone(&self) -> (copy: Self)
        ensures
            copy@ == self@,
            copy.id@ == self.id@,
    {
        CodeChunk {
            id: self.id.clone(),
            text: self.text.clone(),
            start_line: self.start_line,
            end_line: self.end_line,
            tokens: self.tokens,
            language: self.language.clone(),
            functions: copy_functions(&self.functions),
            classes: copy_classes(&self.classes),
            imports: copy_imports(&self.imports),
            dependencies: copy_strings(&self.dependencies),
        }
    }
}

/// A copy of the function descriptors `items`.
pub fn copy_functions(items: &Vec<FunctionInfo>) -> (copy: Vec<FunctionInfo>)
    ensures
        copy.deep_view() == items.deep_view(),
{
    let copy = items.clone();
    proof {
        assert forall|i: int| 0 <= i < items.len() implies copy@[i]@ == items@[i]@ by {
            assert(cloned(items@[i], copy@[i]));
        }
        assert(copy.deep_view() =~= items.deep_view());
    }
    copy
}

/// A copy of the class descriptors `items`.
pub fn copy_classes(items: &Vec<ClassInfo>) -> (copy: Vec<ClassInfo>)
    ensures
        copy.deep_view() == items.deep_view(),
{
    let copy = items.clone();
    proof {
        assert forall|i: int| 0 <= i < items.len() implies copy@[i]@ == items@[i]@ by {
            assert(cloned(items@[i], copy@[i]));
        }
        assert(copy.deep_view() =~= items.deep_view());
    }
    copy
}

/// A copy of the import descriptors `items`.
pub fn copy_imports(items: &Vec<ImportInfo>) -> (copy: Vec<ImportInfo>)
    ensures
        copy.deep_view() == items.deep_view(),
{
    let copy = items.clone();
    proof {
        assert forall|i: int| 0 <= i < items.len() implies copy@[i]@ == items@[i]@ by {
            assert(cloned(items@[i], copy@[i]));
        }
        assert(copy.deep_view() =~= items.deep_view());
    }
    copy
}

/// A copy of the strings `items`.
pub fn copy_strings(items: &Vec<String>) -> (copy: Vec<String>)
    ensures
        copy.deep_view() == items.deep_view(),
{
    let copy = items.clone();
    proof {
        assert forall|i: int| 0 <= i < items.len() implies copy@[i]@ == items@[i]@ by {
            assert(cloned(items@[i], copy@[i]));
        }
        assert(copy.deep_view() =~= items.deep_view());
    }
    copy
}

} // verus!
