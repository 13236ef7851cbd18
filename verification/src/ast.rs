//! The program tree produced by the parser and the values the engine works on.
use vstd::prelude::*;

use crate::text::strs_view;

verus! {

/// Which mode a statement runs in.
#[derive(Debug, Clone, Copy, PartialEq, Eq, Structural)]
pub enum Receiver {
    Rec,
    Grid,
}

/// One pipeline stage: where its input comes from, an optional record
/// address, the receiver, and the chained calls.
#[derive(Debug)]
pub struct Statement {
    pub source: Source,
    pub address: Option<AddressRange>,
    pub receiver: Receiver,
    pub calls: Vec<Call>,
}

/// Stages joined by `|`.
#[derive(Debug)]
pub struct Pipeline {
    pub stages: Vec<Statement>,
}

/// A method call with its arguments.
#[derive(Debug)]
pub struct Call {
    pub name: String,
    pub args: Vec<Expr>,
}

/// An argument expression.
#[derive(Debug)]
pub enum Expr {
    Str(String),
    Num(i64),
    Ident(String),
    Call(Call),
}

/// Record-mode separators: `fs` is a regex, the others are literal text
/// with `\t`, `\n`, `\r` escapes.
#[derive(Debug, Clone)]
pub struct RecConfig {
    pub fs: String,
    pub rs: String,
    pub ofs: String,
    pub ors: String,
}

impl Default for RecConfig {
    fn default() -> (r: Self)
        ensures
            r.fs@ == seq!['\\', 's', '+'],
            r.rs@ == seq!['\n'],
            r.ofs@ == seq![' '],
            r.ors@ == seq!['\n'],
    {
        proof {
            reveal_strlit("\\s+");
            reveal_strlit("\n");
            reveal_strlit(" ");
        }
        let r = RecConfig {
            fs: String::from_str("\\s+"),
            rs: String::from_str("\n"),
            ofs: String::from_str(" "),
            ors: String::from_str("\n"),
        };
        assert(r.fs@ =~= seq!['\\', 's', '+']);
        assert(r.rs@ =~= seq!['\n']);
        assert(r.ofs@ =~= seq![' ']);
        r
    }
}

impl RecConfig {
    /// A field-by-field copy.
    pub fn duplicate(&self) -> (r: Self)
        ensures
            r == *self,
    {
        RecConfig {
            fs: self.fs.clone(),
            rs: self.rs.clone(),
            ofs: self.ofs.clone(),
            ors: self.ors.clone(),
        }
    }
}

/// Grid-mode separators: without `fs` every character is a cell.
#[derive(Debug, Clone)]
pub struct GridConfig {
    pub fs: Option<String>,
    pub rs: String,
    pub ofs: String,
    pub ors: String,
}

impl Default for GridConfig {
    fn default() -> (r: Self)
        ensures
            r.fs is None,
            r.rs@ == seq!['\n'],
            r.ofs@ == Seq::<char>::empty(),
            r.ors@ == seq!['\n'],
    {
        proof {
            reveal_strlit("\n");
        }
        let r = GridConfig {
            fs: None,
            rs: String::from_str("\n"),
            ofs: String::new(),
            ors: String::from_str("\n"),
        };
        assert(r.rs@ =~= seq!['\n']);
        r
    }
}

impl GridConfig {
    /// A field-by-field copy.
    pub fn duplicate(&self) -> (r: Self)
        ensures
            r == *self,
    {
        GridConfig {
            fs: match &self.fs {
                Some(s) => Some(s.clone()),
                None => None,
            },
            rs: self.rs.clone(),
            ofs: self.ofs.clone(),
            ors: self.ors.clone(),
        }
    }
}

/// Rows of fields with the separators in force.
#[derive(Debug, Clone)]
pub struct Records {
    pub rows: Vec<Vec<String>>,
    pub cfg: RecConfig,
}

/// Rows of cells with the separators in force.
#[derive(Debug, Clone)]
pub struct Grid {
    pub cells: Vec<Vec<String>>,
    pub cfg: GridConfig,
}

/// A `groupby` aggregator over a 0-based column.
#[derive(Debug, Clone, Copy, PartialEq, Eq, Structural)]
pub enum Agg {
    Sum(usize),
    Count,
    Min(usize),
    Max(usize),
    Avg(usize),
    Median(usize),
}

/// A record address: a 1-based record number, the last record, or a regex.
#[derive(Debug, Clone, PartialEq, Eq)]
pub enum Address {
    Line(usize),
    Last,
    Regex(String),
}

/// One address or a range of two.
#[derive(Debug, Clone, PartialEq, Eq)]
pub struct AddressRange {
    pub start: Address,
    pub end: Option<Address>,
}

/// Where a statement's input comes from.
#[derive(Debug, Clone, PartialEq, Eq)]
pub enum Source {
    Current,
    Stdin,
    Prev,
    Named(String),
}

/// The mathematical value of a [`Source`].
pub enum SourceModel {
    Current,
    Stdin,
    Prev,
    Named(Seq<char>),
}

/// The mathematical value of an [`Address`].
pub enum AddressModel {
    Line(nat),
    Last,
    Regex(Seq<char>),
}

/// The mathematical value of an [`AddressRange`].
pub struct RangeModel {
    pub start: AddressModel,
    pub end: Option<AddressModel>,
}

impl View for Source {
    type V = SourceModel;

    open spec fn view(&self) -> SourceModel {
        match self {
            Source::Current => SourceModel::Current,
            Source::Stdin => SourceModel::Stdin,
            Source::Prev => SourceModel::Prev,
            Source::Named(n) => SourceModel::Named(n@),
        }
    }
}

impl View for Address {
    type V = AddressModel;

    open spec fn view(&self) -> AddressModel {
        match self {
            Address::Line(n) => AddressModel::Line(*n as nat),
            Address::Last => AddressModel::Last,
            Address::Regex(p) => AddressModel::Regex(p@),
        }
    }
}

impl View for AddressRange {
    type V = RangeModel;

    open spec fn view(&self) -> RangeModel {
        RangeModel {
            start: self.start@,
            end: match self.end {
                Some(a) => Some(a@),
                None => None,
            },
        }
    }
}

/// The value of an optional address range.
pub open spec fn opt_range_view(r: Option<AddressRange>) -> Option<RangeModel> {
    match r {
        Some(a) => Some(a@),
        None => None,
    }
}

/// The character views of rows of strings.
pub open spec fn table_view(rows: Seq<Vec<String>>) -> Seq<Seq<Seq<char>>> {
    rows.map_values(|r: Vec<String>| strs_view(r@))
}

} // verus!
