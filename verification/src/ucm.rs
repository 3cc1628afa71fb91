//! The unified code model: what the language analyzers report about a project.
use vstd::prelude::*;

verus! {

/// A line range inside one project file.
pub struct SourceRange {
    pub file: String,
    pub start_line: u32,
    pub end_line: u32,
}

impl Clone for SourceRange {
    fn clone(&self) -> (r: Self)
        ensures
            r == *self,
    {
        SourceRange { file: self.file.clone(), start_line: self.start_line, end_line: self.end_line }
    }
}

/// A semantic entity (function, call, branch, loop, ...) found by an analyzer.
pub struct Entity {
    pub id: String,
    pub kind: String,
    pub name: String,
    pub label: String,
    pub symbol: String,
    pub callee: String,
    pub condition: String,
    pub source: SourceRange,
    pub parent_id: String,
    pub children: Vec<String>,
    pub coverage: bool,
}

/// A package (Go) or module (TypeScript) with its files.
pub struct Package {
    pub id: String,
    pub name: String,
    pub dir: String,
    pub files: Vec<String>,
}

#[derive(Clone, Copy, PartialEq, Eq, Structural, Debug)]
pub enum SymbolKind {
    Function,
    Method,
    Type,
    Interface,
    Variable,
}

/// A declared symbol of the project.
pub struct Symbol {
    pub id: String,
    pub kind: SymbolKind,
    pub name: String,
    pub package: String,
    pub source: SourceRange,
    pub signature: String,
    pub is_exported: bool,
    pub is_async: bool,
}

/// A call from one symbol to another, as seen by static analysis.
pub struct Call {
    pub from: String,
    pub to: String,
    pub source: SourceRange,
}

#[derive(Clone, Copy, PartialEq, Eq, Structural, Debug)]
pub enum EffectKind {
    Network,
    Database,
    FileSystem,
    Queue,
    Log,
    Other,
}

/// A side effect (network, storage, logging, ...) performed by a symbol.
pub struct ExternalEffect {
    pub symbol: String,
    pub kind: EffectKind,
    pub detail: String,
    pub source: SourceRange,
}

/// A compiler diagnostic tied to a file, reported by an analyzer.
pub struct AnalysisError {
    pub file: String,
    pub message: String,
    pub start_line: u32,
    pub end_line: u32,
}

impl Clone for AnalysisError {
    fn clone(&self) -> (r: Self)
        ensures
            r == *self,
    {
        AnalysisError {
            file: self.file.clone(),
            message: self.message.clone(),
            start_line: self.start_line,
            end_line: self.end_line,
        }
    }
}

/// Everything the analyzers know about a project.
pub struct UnifiedCodeModel {
    pub language: String,
    pub packages: Vec<Package>,
    pub symbols: Vec<Symbol>,
    pub calls: Vec<Call>,
    pub effects: Vec<ExternalEffect>,
    pub entities: Vec<Entity>,
    pub errors: Vec<AnalysisError>,
}

} // verus!
