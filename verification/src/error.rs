//! The error type shared by all operations of the library.
use vstd::prelude::*;
use crate::text::{decimal, push_decimal, push_str};

verus! {

/// Error variants that can occur in hyperlit operations.
///
/// Errors that come from outside the library (I/O errors, errors of other crates) are
/// carried as the text they display.
#[derive(Debug)]
pub enum ErrorKind {
    /// File system operation failed.
    FileError { path: String, source: String },
    /// Several errors occurred during a batch operation; `first` is the first of them.
    Multiple { first: Option<Box<HyperlitError>>, count: usize },
    /// A wrapped error of another library, by its message.
    StdError { error: String },
    /// Catch-all for other errors with a message.
    Message { message: String },
}

/// An error: its kind, the contexts attached while it travelled up (oldest first),
/// and the error that caused it, if any.
#[derive(Debug)]
pub struct HyperlitError {
    kind: ErrorKind,
    context: Vec<String>,
    cause: Option<Box<HyperlitError>>,
}

/// Standard result type for hyperlit operations.
pub type HyperlitResult<T> = Result<T, Box<HyperlitError>>;

/// The text of an error kind, as the error's display shows it.
pub open spec fn kind_text(k: ErrorKind) -> Seq<char>
    decreases k,
{
    match k {
        ErrorKind::FileError { path, source } => "File error at "@ + path@ + ": "@ + source@,
        ErrorKind::Multiple { first, count } => "Multiple errors occurred ("@ + decimal(count as nat)
            + " total)"@ + match first {
            Some(e) => ": "@ + error_text(*e),
            None => Seq::empty(),
        },
        ErrorKind::StdError { error } => error@,
        ErrorKind::Message { message } => message@,
    }
}

/// The contexts joined by `": "`, oldest first.
pub open spec fn joined_context(c: Seq<Seq<char>>) -> Seq<char>
    decreases c.len(),
{
    if c.len() == 0 {
        Seq::empty()
    } else if c.len() == 1 {
        c[0]
    } else {
        joined_context(c.drop_last()) + ": "@ + c.last()
    }
}

/// The display text of an error: its contexts, then its kind.
pub closed spec fn error_text(e: HyperlitError) -> Seq<char>
    decreases e,
{
    let ctx = e.context@.map_values(|s: String| s@);
    if ctx.len() == 0 {
        kind_text(e.kind)
    } else {
        joined_context(ctx) + ": "@ + kind_text(e.kind)
    }
}

impl HyperlitError {
    /// The kind of the error.
    pub closed spec fn spec_kind(&self) -> ErrorKind {
        self.kind
    }

    /// The contexts attached to the error, oldest first.
    pub closed spec fn spec_context(&self) -> Seq<Seq<char>> {
        self.context@.map_values(|s: String| s@)
    }

    /// The error that caused this one.
    pub closed spec fn spec_cause(&self) -> Option<HyperlitError> {
        match self.cause {
            Some(b) => Some(*b),
            None => None,
        }
    }

    /// The text the error displays.
    pub open spec fn text(&self) -> Seq<char> {
        error_text(*self)
    }

    /// What an error displays: its contexts joined by `": "`, oldest first, then the
    /// text of its kind; with no context, the text of its kind alone.
    pub proof fn lemma_text(&self)
        ensures
            self.text() == if self.spec_context().len() == 0 {
                kind_text(self.spec_kind())
            } else {
                joined_context(self.spec_context()) + ": "@ + kind_text(self.spec_kind())
            },
    {
    }

    /// Creates a new error from an ErrorKind.
    pub fn new(kind: ErrorKind) -> (e: Self)
        ensures
            e.spec_kind() == kind,
            e.spec_context() == Seq::<Seq<char>>::empty(),
            e.spec_cause() is None,
    {
        let e = HyperlitError { kind, context: Vec::new(), cause: None };
        assert(e.spec_context() =~= Seq::<Seq<char>>::empty());
        e
    }

    /// Creates an error with a message.
    pub fn message(message: &str) -> (e: Self)
        ensures
            e.spec_kind() == (ErrorKind::Message { message: e.spec_kind()->message }),
            e.spec_kind()->message@ == message@,
            e.spec_context() == Seq::<Seq<char>>::empty(),
            e.spec_cause() is None,
    {
        Self::new(ErrorKind::Message { message: message.to_owned() })
    }

    /// Attaches context to an error; context is displayed before the error message.
    pub fn context(self, context: &str) -> (e: Self)
        ensures
            e.spec_kind() == self.spec_kind(),
            e.spec_context() == self.spec_context().push(context@),
            e.spec_cause() == self.spec_cause(),
    {
        let mut e = self;
        e.context.push(context.to_owned());
        assert(e.spec_context() =~= self.spec_context().push(context@));
        e
    }

    /// The contexts attached to the error, oldest first.
    pub fn get_context(&self) -> (c: &Vec<String>)
        ensures
            c@.map_values(|s: String| s@) == self.spec_context(),
    {
        &self.context
    }

    /// Records the error that caused this one.
    pub fn caused_by(self, cause: HyperlitError) -> (e: Self)
        ensures
            e.spec_kind() == self.spec_kind(),
            e.spec_context() == self.spec_context(),
            e.spec_cause() == Some(cause),
    {
        let mut e = self;
        e.cause = Some(Box::new(cause));
        e
    }

    /// Attaches context computed by `f`; the text is displayed before the error message.
    pub fn with_context<F: FnOnce() -> String>(self, f: F) -> (e: Self)
        requires
            f.requires(()),
        ensures
            exists|c: String| #[trigger] f.ensures((), c)
                && e.spec_context() == self.spec_context().push(c@),
            e.spec_kind() == self.spec_kind(),
            e.spec_cause() == self.spec_cause(),
    {
        let c = f();
        let mut e = self;
        e.context.push(c);
        assert(e.spec_context() =~= self.spec_context().push(c@));
        e
    }

    /// Returns a reference to the underlying ErrorKind.
    pub fn kind(&self) -> (k: &ErrorKind)
        ensures
            *k == self.spec_kind(),
    {
        &self.kind
    }

    /// Returns the error that caused this one, if any.
    pub fn get_cause(&self) -> (c: Option<&HyperlitError>)
        ensures
            match c {
                Some(e) => self.spec_cause() == Some(*e),
                None => self.spec_cause() is None,
            },
    {
        match &self.cause {
            Some(b) => Some(&**b),
            None => None,
        }
    }

    /// Returns the innermost error of the cause chain.
    pub fn root_cause(&self) -> (r: &HyperlitError)
        ensures
            r == root_of(*self),
        decreases self,
    {
        match &self.cause {
            Some(b) => b.root_cause(),
            None => self,
        }
    }

    /// The text the error displays: its contexts joined by `": "`, then its kind.
    pub fn to_string(&self) -> (s: String)
        ensures
            s@ == self.text(),
        decreases self, 1nat,
    {
        let mut s = String::new();
        let mut i: usize = 0;
        while i < self.context.len()
            invariant
                i <= self.context.len(),
                s@ == joined_context(self.spec_context().take(i as int)),
            decreases self.context.len() - i,
        {
            let ghost ctx = self.spec_context();
            if i > 0 {
                push_str(&mut s, ": ");
            }
            push_str(&mut s, self.context[i].as_str());
            assert(ctx.take(i + 1).drop_last() == ctx.take(i as int));
            i = i + 1;
        }
        assert(self.spec_context().take(self.context.len() as int) == self.spec_context());
        if self.context.len() > 0 {
            push_str(&mut s, ": ");
        }
        let k = self.kind_to_string();
        push_str(&mut s, k.as_str());
        s
    }

    fn kind_to_string(&self) -> (s: String)
        ensures
            s@ == kind_text(self.kind),
        decreases self, 0nat,
    {
        match &self.kind {
            ErrorKind::FileError { path, source } => {
                let mut s = String::new();
                push_str(&mut s, "File error at ");
                push_str(&mut s, path.as_str());
                push_str(&mut s, ": ");
                push_str(&mut s, source.as_str());
                s
            },
            ErrorKind::Multiple { first, count } => {
                let mut s = String::new();
                push_str(&mut s, "Multiple errors occurred (");
                push_decimal(&mut s, *count as u128);
                push_str(&mut s, " total)");
                match first {
                    Some(e) => {
                        push_str(&mut s, ": ");
                        let t = e.to_string();
                        push_str(&mut s, t.as_str());
                    },
                    None => {},
                }
                s
            },
            ErrorKind::StdError { error } => error.clone(),
            ErrorKind::Message { message } => message.clone(),
        }
    }
}

impl From<ErrorKind> for HyperlitError {
    fn from(kind: ErrorKind) -> (e: Self)
        ensures
            e.spec_kind() == kind,
            e.spec_context() == Seq::<Seq<char>>::empty(),
            e.spec_cause() is None,
    {
        HyperlitError::new(kind)
    }
}

impl vstd::std_specs::convert::FromSpecImpl<ErrorKind> for HyperlitError {
    open spec fn obeys_from_spec() -> bool {
        false
    }

    open spec fn from_spec(v: ErrorKind) -> Self {
        arbitrary()
    }
}

/// Attaching context to the error of a result, on its way up.
pub trait ResultExt<T>: Sized {
    /// Attaches `context` to the error, if there is one.
    fn context(self, context: &str) -> HyperlitResult<T>;

    /// Attaches the context computed by `f` to the error, if there is one; `f` is
    /// called only then.
    fn with_context<F: FnOnce() -> String>(self, f: F) -> HyperlitResult<T>
        requires
            f.requires(()),
    ;
}

impl<T> ResultExt<T> for HyperlitResult<T> {
    fn context(self, context: &str) -> (r: HyperlitResult<T>)
        ensures
            match self {
                Ok(v) => r == Ok::<T, Box<HyperlitError>>(v),
                Err(e) => r matches Err(e2) && e2.spec_kind() == e.spec_kind()
                    && e2.spec_context() == e.spec_context().push(context@)
                    && e2.spec_cause() == e.spec_cause(),
            },
    {
        match self {
            Ok(v) => Ok(v),
            Err(e) => Err(Box::new((*e).context(context))),
        }
    }

    fn with_context<F: FnOnce() -> String>(self, f: F) -> (r: HyperlitResult<T>)
        ensures
            match self {
                Ok(v) => r == Ok::<T, Box<HyperlitError>>(v),
                Err(e) => r matches Err(e2) && e2.spec_kind() == e.spec_kind()
                    && (exists|c: String| #[trigger] f.ensures((), c)
                        && e2.spec_context() == e.spec_context().push(c@))
                    && e2.spec_cause() == e.spec_cause(),
            },
    {
        match self {
            Ok(v) => Ok(v),
            Err(e) => Err(Box::new((*e).with_context(f))),
        }
    }
}

/// The headline of an error kind in the debug view.
pub open spec fn kind_debug(k: ErrorKind) -> Seq<char> {
    match k {
        ErrorKind::FileError { path, source } => "FileError: "@ + path@ + ": "@ + source@,
        ErrorKind::Multiple { first, count } => "Multiple errors ("@ + decimal(count as nat) + " total)"@,
        ErrorKind::StdError { error } => error@,
        ErrorKind::Message { message } => message@,
    }
}

/// Line `i` of the contexts `ctx` in the debug view: a branch, or the last branch when
/// nothing follows it.
pub open spec fn context_line(ctx: Seq<Seq<char>>, i: int, indent: Seq<char>, has_cause: bool) -> Seq<char> {
    indent + (if i + 1 < ctx.len() || has_cause { "\u{251c}\u{2500}"@ } else { "\u{2514}\u{2500}"@ }) + " "@ + ctx[i]
        + "\n"@
}

/// The first `k` context lines.
pub open spec fn context_lines(ctx: Seq<Seq<char>>, k: nat, indent: Seq<char>, has_cause: bool) -> Seq<char>
    decreases k,
{
    if k == 0 {
        Seq::empty()
    } else {
        context_lines(ctx, (k - 1) as nat, indent, has_cause) + context_line(ctx, k - 1, indent, has_cause)
    }
}

/// The tree below an error's headline in the debug view: its contexts, then its cause
/// (headline and tree, indented further).
pub closed spec fn tree_text(e: HyperlitError, indent: Seq<char>) -> Seq<char>
    decreases e,
{
    let ctx = e.context@.map_values(|s: String| s@);
    context_lines(ctx, ctx.len(), indent, e.cause is Some) + match e.cause {
        Some(c) => indent + "\u{2514}\u{2500} cause: "@ + kind_debug(c.kind) + "\n"@ + tree_text(*c, indent + "   "@),
        None => Seq::empty(),
    }
}

/// The debug view of an error: the headline of its kind, then the tree of its
/// contexts and causes.
pub open spec fn debug_text_of(e: HyperlitError) -> Seq<char> {
    kind_debug(e.spec_kind()) + "\n"@ + tree_text(e, Seq::empty())
}

impl HyperlitError {
    fn kind_debug_string(kind: &ErrorKind) -> (s: String)
        ensures
            s@ == kind_debug(*kind),
    {
        match kind {
            ErrorKind::FileError { path, source } => {
                let mut s = "FileError: ".to_owned();
                push_str(&mut s, path.as_str());
                push_str(&mut s, ": ");
                push_str(&mut s, source.as_str());
                s
            },
            ErrorKind::Multiple { first: _, count } => {
                let mut s = "Multiple errors (".to_owned();
                push_decimal(&mut s, *count as u128);
                push_str(&mut s, " total)");
                s
            },
            ErrorKind::StdError { error } => error.clone(),
            ErrorKind::Message { message } => message.clone(),
        }
    }

    fn write_tree(&self, out: &mut String, indent: &str)
        ensures
            final(out)@ == old(out)@ + tree_text(*self, indent@),
        decreases self,
    {
        let ghost start = out@;
        let ghost ctx = self.spec_context();
        let has_cause = self.cause.is_some();
        let n = self.context.len();
        let mut i: usize = 0;
        while i < n
            invariant
                i <= n,
                n == self.context@.len(),
                ctx == self.spec_context(),
                has_cause == (self.cause is Some),
                out@ == start + context_lines(ctx, i as nat, indent@, has_cause),
            decreases n - i,
        {
            push_str(out, indent);
            if i + 1 < n || has_cause {
                push_str(out, "\u{251c}\u{2500}");
            } else {
                push_str(out, "\u{2514}\u{2500}");
            }
            push_str(out, " ");
            push_str(out, self.context[i].as_str());
            push_str(out, "\n");
            proof {
                assert(ctx[i as int] == self.context@[i as int]@);
                assert(out@ =~= start + context_lines(ctx, (i + 1) as nat, indent@, has_cause));
            }
            i = i + 1;
        }
        match &self.cause {
            Some(c) => {
                push_str(out, indent);
                push_str(out, "\u{2514}\u{2500} cause: ");
                let k = Self::kind_debug_string(&c.kind);
                push_str(out, k.as_str());
                push_str(out, "\n");
                let mut deeper = indent.to_owned();
                push_str(&mut deeper, "   ");
                let ghost before = out@;
                c.write_tree(out, deeper.as_str());
                assert(out@ =~= start + tree_text(*self, indent@));
            },
            None => {
                assert(out@ =~= start + tree_text(*self, indent@));
            },
        }
    }

    /// The debug view of the error: the headline of its kind on a line of its own, then
    /// its contexts as a tree, then its cause with its own contexts and causes, indented
    /// below it.
    pub fn debug_text(&self) -> (s: String)
        ensures
            s@ == debug_text_of(*self),
    {
        let mut s = Self::kind_debug_string(&self.kind);
        push_str(&mut s, "\n");
        proof {
            reveal_strlit("");
        }
        self.write_tree(&mut s, "");
        assert(""@ =~= Seq::<char>::empty());
        s
    }
}

/// The innermost error of the cause chain of `e`.
pub closed spec fn root_of(e: HyperlitError) -> HyperlitError
    decreases e,
{
    match e.cause {
        Some(b) => root_of(*b),
        None => e,
    }
}

/// Law: the root cause has no cause of its own.
pub proof fn lemma_root_has_no_cause(e: HyperlitError)
    ensures
        root_of(e).spec_cause() is None,
    decreases e,
{
    match e.cause {
        Some(b) => lemma_root_has_no_cause(*b),
        None => {},
    }
}

} // verus!
