//! Severity-tagged, source-span-tracked messages.
//!
//! Every phase reports problems by appending [`Diagnostic`]s to a shared
//! [`Diagnostics`] bag; nothing is ever removed. A diagnostic of severity
//! [`Severity::Error`] or graver makes the compilation fail, but phases keep
//! running so a user sees as many problems per run as possible.

use vstd::prelude::*;

verus! {

/// How grave a diagnostic is. `Bug` is gravest; `Help` mildest.
#[derive(Debug, Clone, Copy, PartialEq, Eq, Structural)]
pub enum Severity {
    Bug,
    Error,
    Warning,
    Note,
    Help,
}

impl Severity {
    /// Whether this severity makes a compilation fail.
    pub open spec fn spec_is_fatal(&self) -> bool {
        self is Bug || self is Error
    }

    /// Whether this severity makes a compilation fail.
    #[verifier::when_used_as_spec(spec_is_fatal)]
    pub fn is_fatal(&self) -> (r: bool)
        ensures
            r == self.spec_is_fatal(),
    {
        match self {
            Severity::Bug | Severity::Error => true,
            _ => false,
        }
    }
}

/// A half-open range of byte offsets into the Runefile text.
#[derive(Debug, Clone, Copy, PartialEq, Eq, Structural)]
pub struct Span {
    pub start: usize,
    pub end: usize,
}

/// A secondary remark attached to a diagnostic.
#[derive(Debug)]
pub struct Note {
    pub message: String,
    pub span: Option<Span>,
}

/// One reported problem.
#[derive(Debug)]
pub struct Diagnostic {
    pub severity: Severity,
    pub message: String,
    pub primary: Option<Span>,
    pub notes: Vec<Note>,
}

impl Diagnostic {
    /// An error with a bare message.
    pub fn error(message: String) -> (r: Diagnostic)
        ensures
            r.severity == Severity::Error,
            r.message == message,
            r.primary is None,
            r.notes@ =~= Seq::<Note>::empty(),
    {
        Diagnostic { severity: Severity::Error, message, primary: None, notes: Vec::new() }
    }

    /// A warning with a bare message.
    pub fn warning(message: String) -> (r: Diagnostic)
        ensures
            r.severity == Severity::Warning,
            r.message == message,
            r.primary is None,
            r.notes@ =~= Seq::<Note>::empty(),
    {
        Diagnostic { severity: Severity::Warning, message, primary: None, notes: Vec::new() }
    }
}

/// Whether some diagnostic in `s` is fatal.
pub open spec fn spec_has_errors(s: Seq<Diagnostic>) -> bool {
    exists|i: int| 0 <= i < s.len() && (#[trigger] s[i]).severity.spec_is_fatal()
}

/// Prefixes chain: what was a prefix stays one as the bag grows.
pub proof fn lemma_prefix_transitive(a: Seq<Diagnostic>, b: Seq<Diagnostic>, c: Seq<Diagnostic>)
    requires
        a.is_prefix_of(b),
        b.is_prefix_of(c),
    ensures
        a.is_prefix_of(c),
{
    assert(a =~= c.subrange(0, a.len() as int));
}

/// A prefix's entries persist at their indices.
pub proof fn lemma_prefix_index(a: Seq<Diagnostic>, b: Seq<Diagnostic>, i: int)
    requires
        a.is_prefix_of(b),
        0 <= i < a.len(),
    ensures
        b[i] == a[i],
{
    assert(a[i] == b.subrange(0, a.len() as int)[i]);
}

/// A concatenation holds an error exactly when one half does.
pub proof fn lemma_concat_errors(a: Seq<Diagnostic>, b: Seq<Diagnostic>)
    ensures
        spec_has_errors(a + b) == (spec_has_errors(a) || spec_has_errors(b)),
{
    if spec_has_errors(a) {
        let w = choose|w: int| 0 <= w < a.len() && (#[trigger] a[w]).severity.spec_is_fatal();
        assert((a + b)[w].severity.spec_is_fatal());
    }
    if spec_has_errors(b) {
        let w = choose|w: int| 0 <= w < b.len() && (#[trigger] b[w]).severity.spec_is_fatal();
        assert((a + b)[a.len() + w].severity.spec_is_fatal());
    }
    if spec_has_errors(a + b) {
        let w = choose|w: int|
            0 <= w < (a + b).len() && (#[trigger] (a + b)[w]).severity.spec_is_fatal();
        if w < a.len() {
            assert(a[w].severity.spec_is_fatal());
        } else {
            assert(b[w - a.len()].severity.spec_is_fatal());
        }
    }
}

/// An append-only collection of diagnostics.
#[derive(Debug)]
pub struct Diagnostics {
    items: Vec<Diagnostic>,
}

impl View for Diagnostics {
    type V = Seq<Diagnostic>;

    closed spec fn view(&self) -> Seq<Diagnostic> {
        self.items@
    }
}

impl Diagnostics {
    /// An empty bag.
    pub fn new() -> (r: Diagnostics)
        ensures
            r@ =~= Seq::<Diagnostic>::empty(),
    {
        Diagnostics { items: Vec::new() }
    }

    /// Move every diagnostic of `other` to the end of this bag.
    pub fn append(&mut self, other: Diagnostics)
        ensures
            final(self)@ == old(self)@ + other@,
    {
        let mut items = other.items;
        self.items.append(&mut items);
    }

    /// Append one diagnostic.
    pub fn push(&mut self, d: Diagnostic)
        ensures
            final(self)@ == old(self)@.push(d),
    {
        self.items.push(d);
    }

    /// How many diagnostics have been reported.
    pub fn len(&self) -> (r: usize)
        ensures
            r == self@.len(),
    {
        self.items.len()
    }

    /// The `i`th diagnostic, in report order.
    pub fn get(&self, i: usize) -> (r: &Diagnostic)
        requires
            i < self@.len(),
        ensures
            *r == self@[i as int],
    {
        &self.items[i]
    }

    /// Whether any reported diagnostic makes the compilation fail.
    pub fn has_errors(&self) -> (r: bool)
        ensures
            r == spec_has_errors(self@),
    {
        let n = self.items.len();
        let mut i: usize = 0;
        while i < n
            invariant
                0 <= i <= n,
                n == self.items@.len(),
                forall|j: int| 0 <= j < i ==> !(#[trigger] self.items@[j]).severity.spec_is_fatal(),
            decreases n - i,
        {
            if self.items[i].severity.is_fatal() {
                return true;
            }
            i += 1;
        }
        false
    }

    /// The diagnostics of exactly the given severity, in report order.
    pub fn of_severity(&self, severity: Severity) -> (r: Vec<&Diagnostic>)
        ensures
            r@.map_values(|x: &Diagnostic| *x) =~= self@.filter(
                |d: Diagnostic| d.severity == severity,
            ),
    {
        let ghost pred = |d: Diagnostic| d.severity == severity;
        let mut out: Vec<&Diagnostic> = Vec::new();
        let n = self.items.len();
        let mut i: usize = 0;
        while i < n
            invariant
                0 <= i <= n,
                n == self.items@.len(),
                out@.map_values(|x: &Diagnostic| *x) =~= self.items@.take(i as int).filter(pred),
                pred == (|d: Diagnostic| d.severity == severity),
            decreases n - i,
        {
            let d = &self.items[i];
            let ghost prev = out@.map_values(|x: &Diagnostic| *x);
            let matches_severity = match (d.severity, severity) {
                (Severity::Bug, Severity::Bug) => true,
                (Severity::Error, Severity::Error) => true,
                (Severity::Warning, Severity::Warning) => true,
                (Severity::Note, Severity::Note) => true,
                (Severity::Help, Severity::Help) => true,
                _ => false,
            };
            if matches_severity {
                out.push(d);
            }
            proof {
                reveal(Seq::filter);
                let t1 = self.items@.take(i as int + 1);
                assert(t1.drop_last() =~= self.items@.take(i as int));
                assert(t1.last() == self.items@[i as int]);
                if matches_severity {
                    assert(out@.map_values(|x: &Diagnostic| *x) =~= prev.push(
                        self.items@[i as int],
                    ));
                } else {
                    assert(out@.map_values(|x: &Diagnostic| *x) =~= prev);
                }
            }
            i += 1;
        }
        proof {
            assert(self.items@.take(n as int) =~= self.items@);
        }
        out
    }
}

} // verus!
