//! Diagnostics with stable codes.

use crate::text::{decimal, decimal_of, owned, push_repeated, repeated};
use vstd::prelude::*;
use vstd::string::{StrSliceExecFns, StringExecFns};

verus! {

/// Stable diagnostic categories.
#[derive(Debug, Clone, Copy, PartialEq, Eq, Hash, Structural)]
pub enum DiagnosticCategory {
    /// Parser and syntax diagnostics.
    Parse,
    /// Name resolution diagnostics.
    Resolve,
    /// Type-checking diagnostics.
    Type,
    /// Mode planning diagnostics.
    Mode,
    /// Stratification and safety diagnostics.
    Stratification,
    /// Runtime boundary diagnostics.
    Runtime,
    /// Internal invariant diagnostics.
    Internal,
}

impl DiagnosticCategory {
    /// First code number of the category.
    pub open spec fn first_code(self) -> u16 {
        match self {
            DiagnosticCategory::Parse => 0,
            DiagnosticCategory::Resolve => 100,
            DiagnosticCategory::Type => 200,
            DiagnosticCategory::Mode => 300,
            DiagnosticCategory::Stratification => 400,
            DiagnosticCategory::Runtime => 900,
            DiagnosticCategory::Internal => 990,
        }
    }

    /// Stable base code for the category.
    pub fn base(self) -> (r: u16)
        ensures
            r == self.first_code(),
    {
        match self {
            DiagnosticCategory::Parse => 0,
            DiagnosticCategory::Resolve => 100,
            DiagnosticCategory::Type => 200,
            DiagnosticCategory::Mode => 300,
            DiagnosticCategory::Stratification => 400,
            DiagnosticCategory::Runtime => 900,
            DiagnosticCategory::Internal => 990,
        }
    }
}

/// Stable, human-readable code for diagnostics.
#[derive(Debug, Clone, Copy, PartialEq, Eq, Hash, Structural)]
pub struct DiagnosticCode {
    category: DiagnosticCategory,
    index: u16,
}

/// `number` in decimal, with zeros in front up to four digits.
pub open spec fn four_digits(number: nat) -> Seq<char> {
    repeated(
        '0',
        if decimal(number).len() < 4 {
            (4 - decimal(number).len()) as nat
        } else {
            0
        },
    ) + decimal(number)
}

impl DiagnosticCode {
    pub closed spec fn spec_category(self) -> DiagnosticCategory {
        self.category
    }

    pub closed spec fn spec_index(self) -> u16 {
        self.index
    }

    /// The number behind `RAQL`: the category's base plus the index, at most
    /// the largest 16-bit number.
    pub open spec fn number(self) -> nat {
        let sum = self.spec_category().first_code() + self.spec_index();
        if sum > u16::MAX {
            u16::MAX as nat
        } else {
            sum as nat
        }
    }

    /// Creates a new stable code.
    pub fn new(category: DiagnosticCategory, index: u16) -> (r: Self)
        ensures
            r.spec_category() == category,
            r.spec_index() == index,
    {
        Self { category, index }
    }

    /// Returns the category.
    pub fn category(self) -> (r: DiagnosticCategory)
        ensures
            r == self.spec_category(),
    {
        self.category
    }

    /// Returns the category-local numeric index.
    pub fn index(self) -> (r: u16)
        ensures
            r == self.spec_index(),
    {
        self.index
    }

    /// The rendered code.
    pub fn to_text(self) -> (r: String)
        ensures
            r@ == "RAQL"@ + four_digits(self.number()),
    {
        let base: u16 = self.category.base();
        let code: u16 = if self.index > u16::MAX - base {
            u16::MAX
        } else {
            base + self.index
        };
        let digits = decimal_of(code as u64);
        let count: usize = digits.as_str().unicode_len();
        let mut number = String::new();
        let missing: usize = if count < 4 {
            4 - count
        } else {
            0
        };
        push_repeated(&mut number, '0', missing);
        number.append(digits.as_str());
        assert(number@ =~= four_digits(self.number()));
        let mut out = owned("RAQL");
        out.append(number.as_str());
        out
    }
}

/// How grave a diagnostic is.
#[derive(Debug, Clone, Copy, PartialEq, Eq, Hash, Structural)]
pub enum Severity {
    Advice,
    Warning,
    Error,
}

/// A diagnostic: a stable code, a message, a severity, and optional help.
#[derive(Debug)]
pub struct RaqlDiagnostic {
    code: DiagnosticCode,
    message: String,
    severity: Severity,
    help: Option<String>,
}

/// The mathematical content of a [`RaqlDiagnostic`].
#[verifier::ext_equal]
pub struct DiagnosticView {
    pub code: DiagnosticCode,
    pub message: Seq<char>,
    pub severity: Severity,
    pub help: Option<Seq<char>>,
}

impl View for RaqlDiagnostic {
    type V = DiagnosticView;

    closed spec fn view(&self) -> DiagnosticView {
        DiagnosticView {
            code: self.code,
            message: self.message@,
            severity: self.severity,
            help: match self.help {
                Some(help) => Some(help@),
                None => None,
            },
        }
    }
}

impl RaqlDiagnostic {
    /// Creates an error-severity diagnostic.
    pub fn error(code: DiagnosticCode, message: &str) -> (r: Self)
        ensures
            r@ == (DiagnosticView {
                code,
                message: message@,
                severity: Severity::Error,
                help: None,
            }),
    {
        Self { code, message: owned(message), severity: Severity::Error, help: None }
    }

    /// Creates a warning-severity diagnostic.
    pub fn warning(code: DiagnosticCode, message: &str) -> (r: Self)
        ensures
            r@ == (DiagnosticView {
                code,
                message: message@,
                severity: Severity::Warning,
                help: None,
            }),
    {
        Self { code, message: owned(message), severity: Severity::Warning, help: None }
    }

    /// Attaches a help message.
    pub fn with_help(self, help: &str) -> (r: Self)
        ensures
            r@ == (DiagnosticView { help: Some(help@), ..self@ }),
    {
        Self {
            code: self.code,
            message: self.message,
            severity: self.severity,
            help: Some(owned(help)),
        }
    }

    /// Returns this diagnostic's stable code.
    pub fn stable_code(&self) -> (r: DiagnosticCode)
        ensures
            r == self@.code,
    {
        self.code
    }

    /// Returns this diagnostic's textual message.
    pub fn message(&self) -> (r: &str)
        ensures
            r@ == self@.message,
    {
        self.message.as_str()
    }

    /// Returns this diagnostic's severity.
    pub fn severity_level(&self) -> (r: Severity)
        ensures
            r == self@.severity,
    {
        self.severity
    }

    /// Returns this diagnostic's help message.
    pub fn help(&self) -> (r: Option<&str>)
        ensures
            match r {
                Some(help) => self@.help == Some(help@),
                None => self@.help is None,
            },
    {
        match &self.help {
            Some(help) => Some(help.as_str()),
            None => None,
        }
    }
}

/// Mutable diagnostics collection.
#[derive(Debug)]
pub struct Diagnostics {
    items: Vec<RaqlDiagnostic>,
}

impl View for Diagnostics {
    type V = Seq<RaqlDiagnostic>;

    closed spec fn view(&self) -> Seq<RaqlDiagnostic> {
        self.items@
    }
}

impl Diagnostics {
    /// Creates an empty collection.
    pub fn new() -> (r: Self)
        ensures
            r@ == Seq::<RaqlDiagnostic>::empty(),
    {
        Self { items: Vec::new() }
    }

    /// Appends a diagnostic.
    pub fn push(&mut self, diagnostic: RaqlDiagnostic)
        ensures
            final(self)@ == old(self)@.push(diagnostic),
    {
        self.items.push(diagnostic);
    }

    /// Appends all of `diagnostics`.
    pub fn extend(&mut self, diagnostics: Vec<RaqlDiagnostic>)
        ensures
            final(self)@ == old(self)@ + diagnostics@,
    {
        let mut more = diagnostics;
        self.items.append(&mut more);
    }

    /// The diagnostics in order.
    pub fn iter(&self) -> (r: &[RaqlDiagnostic])
        ensures
            r@ == self@,
    {
        self.items.as_slice()
    }

    /// Returns true when empty.
    pub fn is_empty(&self) -> (r: bool)
        ensures
            r == (self@.len() == 0),
    {
        self.items.len() == 0
    }

    /// Returns diagnostic count.
    pub fn len(&self) -> (r: usize)
        ensures
            r == self@.len(),
    {
        self.items.len()
    }

    /// Converts into the underlying vector.
    pub fn into_vec(self) -> (r: Vec<RaqlDiagnostic>)
        ensures
            r@ == self@,
    {
        self.items
    }
}

impl Default for Diagnostics {
    fn default() -> (r: Diagnostics)
        ensures
            r@ == Seq::<RaqlDiagnostic>::empty(),
    {
        Diagnostics::new()
    }
}

} // verus!
