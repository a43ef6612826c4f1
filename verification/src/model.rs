//! The in-memory models: per-function control-flow graphs from the notes
//! file, raw execution counts from the data file, and the resolved coverage.

use vstd::prelude::*;
use crate::ARC_ON_TREE;

verus! {

/// A directed edge between two blocks of one function. Arcs are kept in the
/// order the notes file declared them; that order pairs the instrumented
/// (off-tree) arcs with the data file's raw counts.
#[derive(Clone, Copy, Debug, PartialEq, Eq, Structural)]
pub struct ArcNotes {
    pub source_block: u32,
    pub destination_block: u32,
    pub flags: u32,
}

impl ArcNotes {
    /// Whether the arc lies on the spanning tree, so that it carries no
    /// explicit counter.
    pub open spec fn spec_on_tree(self) -> bool {
        self.flags & ARC_ON_TREE != 0
    }

    /// The low flag bit marks an arc as part of the spanning tree.
    pub fn is_on_tree(&self) -> (r: bool)
        ensures
            r == self.spec_on_tree(),
    {
        self.flags & ARC_ON_TREE > 0
    }
}

/// One basic block of a function; only its existence and its flag word are
/// retained from the notes file.
#[derive(Clone, Copy, Debug, PartialEq, Eq, Structural)]
pub struct BlockNotes {
    pub flags: u32,
}

/// One line number attributed to one block, under the source path that the
/// enclosing lines record had most recently switched to.
#[derive(Clone, Debug)]
pub struct LineRecord {
    pub src_path: String,
    pub block: u32,
    pub line_number: u32,
}

/// Mathematical value of a `LineRecord`.
pub ghost struct LineRecordView {
    pub src_path: Seq<char>,
    pub block: u32,
    pub line_number: u32,
}

impl View for LineRecord {
    type V = LineRecordView;

    open spec fn view(&self) -> LineRecordView {
        LineRecordView {
            src_path: self.src_path@,
            block: self.block,
            line_number: self.line_number,
        }
    }
}

/// One function's control-flow graph as the notes file describes it: its
/// identity, its blocks, its arcs in declaration order, and the line numbers
/// its blocks claim.
#[derive(Clone, Debug)]
pub struct FunctionNotes {
    pub identifier: u32,
    pub line_number_checksum: u32,
    pub config_checksum: u32,
    pub src_path: String,
    pub name: String,
    pub line_number: u32,
    pub blocks: Vec<BlockNotes>,
    pub arcs: Vec<ArcNotes>,
    pub lines: Vec<LineRecord>,
}

/// Mathematical value of a `FunctionNotes`.
pub ghost struct FunctionNotesView {
    pub identifier: u32,
    pub line_number_checksum: u32,
    pub config_checksum: u32,
    pub src_path: Seq<char>,
    pub name: Seq<char>,
    pub line_number: u32,
    pub blocks: Seq<BlockNotes>,
    pub arcs: Seq<ArcNotes>,
    pub lines: Seq<LineRecordView>,
}

impl View for FunctionNotes {
    type V = FunctionNotesView;

    open spec fn view(&self) -> FunctionNotesView {
        FunctionNotesView {
            identifier: self.identifier,
            line_number_checksum: self.line_number_checksum,
            config_checksum: self.config_checksum,
            src_path: self.src_path@,
            name: self.name@,
            line_number: self.line_number,
            blocks: self.blocks@,
            arcs: self.arcs@,
            lines: self.lines@.map_values(|l: LineRecord| l@),
        }
    }
}

/// Everything decoded from a notes file: the functions in declaration order
/// and the sorted, duplicate-free list of every source path they mention.
#[derive(Clone, Debug)]
pub struct NotesModel {
    pub version: String,
    pub functions: Vec<FunctionNotes>,
    pub source_paths: Vec<String>,
}

/// Mathematical value of a `NotesModel`.
pub ghost struct NotesModelView {
    pub version: Seq<char>,
    pub functions: Seq<FunctionNotesView>,
    pub source_paths: Seq<Seq<char>>,
}

impl View for NotesModel {
    type V = NotesModelView;

    open spec fn view(&self) -> NotesModelView {
        NotesModelView {
            version: self.version@,
            functions: self.functions@.map_values(|f: FunctionNotes| f@),
            source_paths: self.source_paths@.map_values(|s: String| s@),
        }
    }
}

/// Payload of a function definition record in the notes file.
#[derive(Clone, Debug)]
pub struct FunctionRecord {
    pub identifier: u32,
    pub line_number_checksum: u32,
    pub config_checksum: u32,
    pub src_path: String,
    pub name: String,
    pub line_number: u32,
}

/// Mathematical value of a `FunctionRecord`.
pub ghost struct FunctionRecordView {
    pub identifier: u32,
    pub line_number_checksum: u32,
    pub config_checksum: u32,
    pub src_path: Seq<char>,
    pub name: Seq<char>,
    pub line_number: u32,
}

impl View for FunctionRecord {
    type V = FunctionRecordView;

    open spec fn view(&self) -> FunctionRecordView {
        FunctionRecordView {
            identifier: self.identifier,
            line_number_checksum: self.line_number_checksum,
            config_checksum: self.config_checksum,
            src_path: self.src_path@,
            name: self.name@,
            line_number: self.line_number,
        }
    }
}

/// Payload of a blocks record: one entry per declared block.
#[derive(Clone, Copy, Debug, PartialEq, Eq, Structural)]
pub struct BlockRecord {
    pub flags: u32,
}

/// One destination of an arcs record.
#[derive(Clone, Copy, Debug, PartialEq, Eq, Structural)]
pub struct ArcDestinationRecord {
    pub destination_block: u32,
    pub flags: u32,
}

/// Payload of an arcs record: one source block and its outgoing arcs.
#[derive(Clone, Debug)]
pub struct ArcRecord {
    pub source_block: u32,
    pub arcs: Vec<ArcDestinationRecord>,
}

/// Mathematical value of an `ArcRecord`.
pub ghost struct ArcRecordView {
    pub source_block: u32,
    pub arcs: Seq<ArcDestinationRecord>,
}

impl View for ArcRecord {
    type V = ArcRecordView;

    open spec fn view(&self) -> ArcRecordView {
        ArcRecordView { source_block: self.source_block, arcs: self.arcs@ }
    }
}

/// Payload of a function reference record in the data file.
#[derive(Clone, Copy, Debug, PartialEq, Eq, Structural)]
pub struct FunctionReference {
    pub identifier: u32,
    pub line_number_checksum: u32,
    pub config_checksum: u32,
}

/// The raw execution counts recorded for one function's instrumented arcs,
/// in the order those arcs were declared in the notes file.
#[derive(Clone, Debug)]
pub struct CountsRecord {
    pub function_id: u32,
    pub counts: Vec<u64>,
}

/// Mathematical value of a `CountsRecord`.
pub ghost struct CountsRecordView {
    pub function_id: u32,
    pub counts: Seq<u64>,
}

impl View for CountsRecord {
    type V = CountsRecordView;

    open spec fn view(&self) -> CountsRecordView {
        CountsRecordView { function_id: self.function_id, counts: self.counts@ }
    }
}

/// One function's worth of the data file: the reference that identifies it
/// and the raw counts recorded for it.
#[derive(Clone, Debug)]
pub struct DataFunction {
    pub identifier: u32,
    pub line_number_checksum: u32,
    pub config_checksum: u32,
    pub counts: Vec<u64>,
}

/// Mathematical value of a `DataFunction`.
pub ghost struct DataFunctionView {
    pub identifier: u32,
    pub line_number_checksum: u32,
    pub config_checksum: u32,
    pub counts: Seq<u64>,
}

impl View for DataFunction {
    type V = DataFunctionView;

    open spec fn view(&self) -> DataFunctionView {
        DataFunctionView {
            identifier: self.identifier,
            line_number_checksum: self.line_number_checksum,
            config_checksum: self.config_checksum,
            counts: self.counts@,
        }
    }
}

/// Everything decoded from a data file.
#[derive(Clone, Debug)]
pub struct DataModel {
    pub version: String,
    pub functions: Vec<DataFunction>,
}

/// Mathematical value of a `DataModel`.
pub ghost struct DataModelView {
    pub version: Seq<char>,
    pub functions: Seq<DataFunctionView>,
}

impl View for DataModel {
    type V = DataModelView;

    open spec fn view(&self) -> DataModelView {
        DataModelView {
            version: self.version@,
            functions: self.functions@.map_values(|f: DataFunction| f@),
        }
    }
}

/// A resolved execution count for one source line.
#[derive(Clone, Copy, Debug, PartialEq, Eq, Structural)]
pub struct LineCount {
    pub line_number: u32,
    pub count: u64,
}

/// A resolved execution count for one function, under its source path.
#[derive(Clone, Debug)]
pub struct FunctionCoverage {
    pub name: String,
    pub start_line: u32,
    pub count: u64,
}

/// Mathematical value of a `FunctionCoverage`.
pub ghost struct FunctionCoverageView {
    pub name: Seq<char>,
    pub start_line: u32,
    pub count: u64,
}

impl View for FunctionCoverage {
    type V = FunctionCoverageView;

    open spec fn view(&self) -> FunctionCoverageView {
        FunctionCoverageView {
            name: self.name@,
            start_line: self.start_line,
            count: self.count,
        }
    }
}

/// The resolved coverage of one source path: its functions in declaration
/// order and its line counts sorted ascending by line number.
#[derive(Clone, Debug)]
pub struct FileCoverage {
    pub src_path: String,
    pub functions: Vec<FunctionCoverage>,
    pub lines: Vec<LineCount>,
}

/// Mathematical value of a `FileCoverage`.
pub ghost struct FileCoverageView {
    pub src_path: Seq<char>,
    pub functions: Seq<FunctionCoverageView>,
    pub lines: Seq<LineCount>,
}

impl View for FileCoverage {
    type V = FileCoverageView;

    open spec fn view(&self) -> FileCoverageView {
        FileCoverageView {
            src_path: self.src_path@,
            functions: self.functions@.map_values(|f: FunctionCoverage| f@),
            lines: self.lines@,
        }
    }
}

/// The resolved coverage of a whole run, one entry per source path, sorted
/// ascending by path.
#[derive(Clone, Debug)]
pub struct CoverageModel {
    pub files: Vec<FileCoverage>,
}

/// Mathematical value of a `CoverageModel`.
pub ghost struct CoverageModelView {
    pub files: Seq<FileCoverageView>,
}

impl View for CoverageModel {
    type V = CoverageModelView;

    open spec fn view(&self) -> CoverageModelView {
        CoverageModelView { files: self.files@.map_values(|f: FileCoverage| f@) }
    }
}

/// Length in bytes plus the decoded payload of one record, as the per-record
/// parsers hand it back; the framing loop checks the length against the
/// record header's declared length.
pub struct Record<T> {
    pub length: usize,
    pub record: T,
}

} // verus!
