use vstd::prelude::*;

verus! {

/// The text of an error message: either a literal that needs no allocation,
/// or a string built at run time.
pub enum Message {
    Borrowed(&'static str),
    Owned(String),
}

impl View for Message {
    type V = Seq<char>;

    open spec fn view(&self) -> Seq<char> {
        match self {
            Message::Borrowed(s) => s@,
            Message::Owned(s) => s@,
        }
    }
}

impl Message {
    /// The message as a string slice.
    pub fn as_str(&self) -> (r: &str)
        ensures
            r@ == self@,
    {
        match self {
            Message::Borrowed(s) => s,
            Message::Owned(s) => s.as_str(),
        }
    }
}

/// An owned error value: a message with an optional cause, or an opaque
/// wrapper that shows exactly what the value inside it shows.
pub enum Error {
    /// A message with no cause: the last link of a chain.
    Formatted { message: Message },
    /// A message whose cause is another error.
    FormattedWrap { message: Message, source: Box<Error> },
    /// A pass-through wrapper: its message and its cause are those of `inner`.
    Opaque { inner: Box<Error> },
}

impl Error {
    /// The messages of the causal chain, outermost first.
    pub open spec fn chain(&self) -> Seq<Seq<char>>
        decreases self,
    {
        match self {
            Error::Formatted { message } => seq![message@],
            Error::FormattedWrap { message, source } => seq![message@] + source.chain(),
            Error::Opaque { inner } => inner.chain(),
        }
    }

    /// Every chain holds at least one message.
    pub proof fn lemma_chain_nonempty(&self)
        ensures
            self.chain().len() >= 1,
        decreases self,
    {
        match self {
            Error::Formatted { .. } => {},
            Error::FormattedWrap { source, .. } => {
                source.lemma_chain_nonempty();
            },
            Error::Opaque { inner } => {
                inner.lemma_chain_nonempty();
            },
        }
    }

    /// This error's own message.
    pub fn message(&self) -> (r: &str)
        ensures
            self.chain().len() >= 1,
            r@ == self.chain()[0],
        decreases self,
    {
        proof {
            self.lemma_chain_nonempty();
        }
        match self {
            Error::Formatted { message } => message.as_str(),
            Error::FormattedWrap { message, .. } => message.as_str(),
            Error::Opaque { inner } => inner.message(),
        }
    }

    /// This error's own message, as an owned string.
    pub fn to_string(&self) -> (r: String)
        ensures
            self.chain().len() >= 1,
            r@ == self.chain()[0],
    {
        self.message().to_owned()
    }

    /// The error that caused this one, if any.
    pub fn source(&self) -> (r: Option<&Error>)
        ensures
            self.chain().len() >= 1,
            r is None <==> self.chain().len() == 1,
            r matches Some(s) ==> s.chain() == self.chain().drop_first(),
        decreases self,
    {
        proof {
            self.lemma_chain_nonempty();
        }
        match self {
            Error::Formatted { .. } => None,
            Error::FormattedWrap { message, source } => {
                proof {
                    source.lemma_chain_nonempty();
                    assert(self.chain().drop_first() =~= source.chain());
                }
                Some(&**source)
            },
            Error::Opaque { inner } => inner.source(),
        }
    }
}

/// The opaque wrapper around `e`.
pub open spec fn opaque_of(e: Error) -> Error {
    Error::Opaque { inner: Box::new(e) }
}

/// An error whose message is the literal `message`, with no cause.
pub fn error_from_string_literal(message: &'static str) -> (r: Error)
    ensures
        r.chain() == seq![message@],
{
    Error::Formatted { message: Message::Borrowed(message) }
}

/// An error whose message is `message`, with no cause.
pub fn error_from_string(message: String) -> (r: Error)
    ensures
        r.chain() == seq![message@],
{
    Error::Formatted { message: Message::Owned(message) }
}

/// An error whose message is the literal `message`, caused by `source`.
pub fn wrap_error_from_string_literal(source: Error, message: &'static str) -> (r: Error)
    ensures
        r.chain() == seq![message@] + source.chain(),
{
    Error::FormattedWrap { message: Message::Borrowed(message), source: Box::new(source) }
}

/// An error whose message is `message`, caused by `source`.
pub fn wrap_error_from_string(source: Error, message: String) -> (r: Error)
    ensures
        r.chain() == seq![message@] + source.chain(),
{
    Error::FormattedWrap { message: Message::Owned(message), source: Box::new(source) }
}

/// Hands an error on unchanged.
pub fn make_opaque(error: Error) -> (r: Error)
    ensures
        r == error,
{
    error
}

/// Re-expresses any error as an opaque wrapper that shows the same message
/// and the same cause.
pub fn to_err(error: Error) -> (r: Error)
    ensures
        r == opaque_of(error),
        r.chain() == error.chain(),
{
    Error::Opaque { inner: Box::new(error) }
}

/// Wrapping an error opaquely, once or twice, leaves its chain of messages,
/// and so everything rendered from it, unchanged; `make_opaque` hands the
/// error on as it is.
pub proof fn lemma_opaque_keeps_chain(e: Error)
    ensures
        opaque_of(e).chain() == e.chain(),
        opaque_of(opaque_of(e)).chain() == e.chain(),
{
    let once = opaque_of(e);
    assert(once.chain() == e.chain());
    assert(opaque_of(once).chain() == once.chain());
}

} // verus!
