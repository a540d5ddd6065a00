//! Recoverable problems found during the parse.
//!
//! Recording a message never unwinds the parse: callers keep consuming
//! tokens afterwards, so one pass over the input surfaces as many genuine
//! problems as possible. Messages are only ever appended, in discovery
//! order. Any `Error`-severity message blocks output generation; warnings
//! alone never do.

use vstd::prelude::*;

use crate::token::Token;

verus! {

#[derive(Clone, Copy, PartialEq, Eq, Structural, Debug)]
pub enum Severity {
    Error,
    Warning,
}

/// One recorded message: its severity, its text, and, when known, the
/// token at which the problem was found.
#[derive(PartialEq, Debug)]
pub struct Diagnostic {
    pub severity: Severity,
    pub text: String,
    pub token: Option<Token>,
}

/// The append-only collection of messages of one parse.
pub struct ParseDiagnostic {
    messages: Vec<Diagnostic>,
}

impl View for ParseDiagnostic {
    type V = Seq<Diagnostic>;

    closed spec fn view(&self) -> Seq<Diagnostic> {
        self.messages@
    }
}

/// Whether some recorded message is an error.
pub open spec fn has_error(msgs: Seq<Diagnostic>) -> bool {
    exists|i: int| 0 <= i < msgs.len() && msgs[i].severity == Severity::Error
}

/// `post` holds every message of `pre`, in place, and possibly more after
/// them: the relation every parsing step keeps.
pub open spec fn extends(pre: Seq<Diagnostic>, post: Seq<Diagnostic>) -> bool {
    &&& pre.len() <= post.len()
    &&& pre =~= post.subrange(0, pre.len() as int)
}

/// Every message list extends itself.
pub broadcast proof fn lemma_extends_refl(a: Seq<Diagnostic>)
    ensures
        #[trigger] extends(a, a),
{
    assert(a.subrange(0, a.len() as int) =~= a);
}

/// Extension of message lists is transitive.
pub broadcast proof fn lemma_extends_trans(a: Seq<Diagnostic>, b: Seq<Diagnostic>, c: Seq<Diagnostic>)
    requires
        #[trigger] extends(a, b),
        #[trigger] extends(b, c),
    ensures
        extends(a, c),
{
    assert forall|i: int| 0 <= i < a.len() implies c.subrange(0, a.len() as int)[i] == a[i] by {
        assert(b.subrange(0, b.len() as int)[i] == b[i]);
        assert(c.subrange(0, b.len() as int)[i] == b[i]);
    }
    assert(a =~= c.subrange(0, a.len() as int));
}

/// Once an error is recorded it stays recorded.
pub broadcast proof fn lemma_extends_keeps_error(pre: Seq<Diagnostic>, post: Seq<Diagnostic>)
    requires
        #[trigger] extends(pre, post),
        has_error(pre),
    ensures
        has_error(post),
{
    let i = choose|i: int| 0 <= i < pre.len() && pre[i].severity == Severity::Error;
    assert(post[i].severity == Severity::Error);
}

impl ParseDiagnostic {
    /// An empty collection.
    pub fn new() -> (d: ParseDiagnostic)
        ensures
            d@ == Seq::<Diagnostic>::empty(),
    {
        ParseDiagnostic { messages: Vec::new() }
    }

    /// Appends an error that cites no particular token.
    pub fn new_err(&mut self, text: &str)
        ensures
            final(self)@.len() == old(self)@.len() + 1,
            extends(old(self)@, final(self)@),
            final(self)@[final(self)@.len() - 1].severity == Severity::Error,
            final(self)@[final(self)@.len() - 1].text@ == text@,
            final(self)@[final(self)@.len() - 1].token is None,
    {
        let owned: String = text.to_owned();
        self.messages.push(Diagnostic { severity: Severity::Error, text: owned, token: None });
        proof {
            assert(self@.subrange(0, old(self)@.len() as int) =~= old(self)@);
        }
    }

    /// Appends a warning that cites no particular token.
    pub fn new_warning(&mut self, text: &str)
        ensures
            final(self)@.len() == old(self)@.len() + 1,
            extends(old(self)@, final(self)@),
            final(self)@[final(self)@.len() - 1].severity == Severity::Warning,
            final(self)@[final(self)@.len() - 1].text@ == text@,
            final(self)@[final(self)@.len() - 1].token is None,
    {
        let owned: String = text.to_owned();
        self.messages.push(Diagnostic { severity: Severity::Warning, text: owned, token: None });
        proof {
            assert(self@.subrange(0, old(self)@.len() as int) =~= old(self)@);
        }
    }

    /// Appends an error citing the offending token.
    pub fn parse_err(&mut self, text: &str, token: &Token)
        ensures
            final(self)@.len() == old(self)@.len() + 1,
            extends(old(self)@, final(self)@),
            final(self)@[final(self)@.len() - 1].severity == Severity::Error,
            final(self)@[final(self)@.len() - 1].text@ == text@,
            final(self)@[final(self)@.len() - 1].token matches Some(t) && t@ == token@,
    {
        let owned: String = text.to_owned();
        let cited = Token { tok_type: token.tok_type, val: token.val.clone() };
        self.messages.push(Diagnostic { severity: Severity::Error, text: owned, token: Some(cited) });
        proof {
            assert(self@.subrange(0, old(self)@.len() as int) =~= old(self)@);
        }
    }

    /// True exactly when at least one `Error` has been recorded; warnings
    /// alone never make it true.
    pub fn is_err(&self) -> (r: bool)
        ensures
            r == has_error(self@),
    {
        let n = self.messages.len();
        let mut i: usize = 0;
        while i < n
            invariant
                n == self.messages@.len(),
                i <= n,
                forall|k: int| 0 <= k < i ==> self.messages@[k].severity != Severity::Error,
            decreases n - i,
        {
            if self.messages[i].severity == Severity::Error {
                return true;
            }
            i = i + 1;
        }
        false
    }

    /// Whether anything at all, error or warning, has been recorded.
    pub fn has_messages(&self) -> (r: bool)
        ensures
            r == (self@.len() > 0),
    {
        self.messages.len() > 0
    }

    /// The recorded messages, in discovery order.
    pub fn messages(&self) -> (r: &Vec<Diagnostic>)
        ensures
            r@ == self@,
    {
        &self.messages
    }
}

} // verus!
