use vstd::prelude::*;
use vstd::string::*;

use crate::error::Error;

verus! {

/// The separator between two messages in compact rendering: `": "`.
pub open spec fn colon_sep() -> Seq<char> {
    seq![':', ' ']
}

/// The line that opens the cause section of expanded rendering, with the
/// blank line before it: `"\n\nCaused by:\n"`.
pub open spec fn caused_by_header() -> Seq<char> {
    seq!['\n', '\n', 'C', 'a', 'u', 's', 'e', 'd', ' ', 'b', 'y', ':', '\n']
}

/// `parts` joined with `sep` between each two neighbours.
pub open spec fn join(parts: Seq<Seq<char>>, sep: Seq<char>) -> Seq<char>
    decreases parts.len(),
{
    if parts.len() == 0 {
        Seq::empty()
    } else if parts.len() == 1 {
        parts[0]
    } else {
        join(parts.drop_last(), sep) + sep + parts.last()
    }
}

/// The character of the decimal digit `d` (below ten).
pub open spec fn digit_char(d: nat) -> char {
    seq!['0', '1', '2', '3', '4', '5', '6', '7', '8', '9'][d as int]
}

/// The decimal digits of `n`, most significant first, without leading zeros.
pub open spec fn decimal(n: nat) -> Seq<char>
    decreases n,
{
    if n < 10 {
        seq![digit_char(n)]
    } else {
        decimal(n / 10) + seq![digit_char(n % 10)]
    }
}

/// `s` preceded by as many spaces as it takes to reach `width` characters.
pub open spec fn pad_left(s: Seq<char>, width: nat) -> Seq<char> {
    let fill: int = if s.len() < width { width - s.len() } else { 0 };
    Seq::new(fill as nat, |i: int| ' ') + s
}

/// One line of the numbered block: the index right-justified in five
/// characters, a colon, a space and the message.
pub open spec fn numbered_line(index: nat, message: Seq<char>) -> Seq<char> {
    pad_left(decimal(index), 5) + colon_sep() + message
}

/// The numbered lines for `causes`, counting from zero.
pub open spec fn numbered_lines(causes: Seq<Seq<char>>) -> Seq<Seq<char>> {
    Seq::new(causes.len(), |i: int| numbered_line(i as nat, causes[i]))
}

/// Single-line rendering of a chain: its messages joined by `": "`,
/// outermost first.
pub open spec fn compact_text(chain: Seq<Seq<char>>) -> Seq<char> {
    join(chain, colon_sep())
}

/// Multi-line rendering of a chain. The outermost message stands alone on
/// the first line. A single cause follows the header unnumbered, indented by
/// four spaces; two or more causes follow it one per line, numbered from
/// zero.
pub open spec fn expanded_text(chain: Seq<Seq<char>>) -> Seq<char> {
    if chain.len() == 0 {
        Seq::empty()
    } else if chain.len() == 1 {
        chain[0]
    } else if chain.len() == 2 {
        chain[0] + caused_by_header() + seq![' ', ' ', ' ', ' '] + chain[1]
    } else {
        chain[0] + caused_by_header() + join(numbered_lines(chain.drop_first()), seq!['\n'])
    }
}

/// Joining one more part appends the separator and that part.
proof fn lemma_join_prefix(parts: Seq<Seq<char>>, sep: Seq<char>, k: int)
    requires
        1 <= k < parts.len(),
    ensures
        join(parts.subrange(0, k + 1), sep) == join(parts.subrange(0, k), sep) + sep + parts[k],
{
    let longer = parts.subrange(0, k + 1);
    assert(longer.drop_last() =~= parts.subrange(0, k));
}

/// Joining a part in front of a non-empty sequence puts the separator
/// between that part and the join of the rest.
proof fn lemma_join_front(first: Seq<char>, rest: Seq<Seq<char>>, sep: Seq<char>)
    requires
        rest.len() >= 1,
    ensures
        join(seq![first] + rest, sep) == first + sep + join(rest, sep),
    decreases rest.len(),
{
    let whole = seq![first] + rest;
    assert(whole.drop_last() =~= seq![first] + rest.drop_last());
    assert(whole.last() == rest.last());
    assert(join(whole, sep) == join(whole.drop_last(), sep) + sep + rest.last());
    if rest.len() == 1 {
        assert(seq![first] + rest.drop_last() =~= seq![first]);
        assert(join(rest, sep) == rest[0]);
        assert(rest.last() == rest[0]);
    } else {
        lemma_join_front(first, rest.drop_last(), sep);
        assert(join(rest, sep) == join(rest.drop_last(), sep) + sep + rest.last());
        assert(join(whole, sep) =~= first + sep + join(rest, sep));
    }
}

/// Ten to the power `k`.
spec fn pow10(k: nat) -> nat
    decreases k,
{
    if k == 0 {
        1
    } else {
        10 * pow10((k - 1) as nat)
    }
}

/// A number below ten to the power `k` has at most `k` decimal digits
/// (`k` at least one).
proof fn lemma_decimal_len_within(n: nat, k: nat)
    requires
        k >= 1,
        n < pow10(k),
    ensures
        decimal(n).len() <= k,
    decreases k,
{
    if n >= 10 {
        assert(k >= 2) by {
            if k == 1 {
                assert(pow10(1) == 10 * pow10(0));
            }
        }
        assert(pow10(k) == 10 * pow10((k - 1) as nat));
        assert(n / 10 < pow10((k - 1) as nat));
        lemma_decimal_len_within(n / 10, (k - 1) as nat);
    }
}

/// Appends the decimal digit `d`.
fn push_digit(out: &mut String, d: usize)
    requires
        d < 10,
    ensures
        final(out)@ == old(out)@ + seq![digit_char(d as nat)],
{
    proof {
        reveal_strlit("0");
        reveal_strlit("1");
        reveal_strlit("2");
        reveal_strlit("3");
        reveal_strlit("4");
        reveal_strlit("5");
        reveal_strlit("6");
        reveal_strlit("7");
        reveal_strlit("8");
        reveal_strlit("9");
    }
    let s: &str = if d == 0 {
        "0"
    } else if d == 1 {
        "1"
    } else if d == 2 {
        "2"
    } else if d == 3 {
        "3"
    } else if d == 4 {
        "4"
    } else if d == 5 {
        "5"
    } else if d == 6 {
        "6"
    } else if d == 7 {
        "7"
    } else if d == 8 {
        "8"
    } else {
        "9"
    };
    assert(s@ =~= seq![digit_char(d as nat)]);
    out.append(s);
}

/// Appends the decimal digits of `n`.
fn push_decimal(out: &mut String, n: usize)
    ensures
        final(out)@ == old(out)@ + decimal(n as nat),
    decreases n,
{
    if n < 10 {
        push_digit(out, n);
    } else {
        push_decimal(out, n / 10);
        push_digit(out, n % 10);
        assert(final(out)@ =~= old(out)@ + decimal(n as nat));
    }
}

/// A number has no more decimal digits than its value plus one.
proof fn lemma_decimal_len_bound(n: nat)
    ensures
        decimal(n).len() <= n + 1,
    decreases n,
{
    if n >= 10 {
        lemma_decimal_len_bound(n / 10);
    }
}

/// The number of decimal digits of `n`.
fn decimal_len(n: usize) -> (r: usize)
    ensures
        r == decimal(n as nat).len(),
    decreases n,
{
    if n < 10 {
        1
    } else {
        proof {
            lemma_decimal_len_bound((n / 10) as nat);
        }
        1 + decimal_len(n / 10)
    }
}

/// Appends `count` spaces.
fn push_spaces(out: &mut String, count: usize)
    ensures
        final(out)@ == old(out)@ + Seq::new(count as nat, |i: int| ' '),
{
    let ghost start = out@;
    let mut i: usize = 0;
    while i < count
        invariant
            i <= count,
            out@ == start + Seq::new(i as nat, |j: int| ' '),
        decreases count - i,
    {
        proof {
            reveal_strlit(" ");
        }
        assert(" "@ =~= seq![' ']);
        out.append(" ");
        i = i + 1;
        assert(out@ =~= start + Seq::new(i as nat, |j: int| ' '));
    }
}

/// Appends one line of the numbered block.
fn push_numbered_line(out: &mut String, index: usize, message: &str)
    ensures
        final(out)@ == old(out)@ + numbered_line(index as nat, message@),
{
    proof {
        reveal_strlit(": ");
    }
    let ghost start = out@;
    let width = decimal_len(index);
    if width < 5 {
        push_spaces(out, 5 - width);
    } else {
        push_spaces(out, 0);
    }
    push_decimal(out, index);
    assert(": "@ =~= colon_sep());
    out.append(": ");
    assert(out@ =~= start + pad_left(decimal(index as nat), 5) + colon_sep());
    out.append(message);
    assert(out@ =~= start + numbered_line(index as nat, message@));
}

/// Compact rendering of the chain of `error`.
pub fn render_compact(error: &Error) -> (r: String)
    ensures
        r@ == compact_text(error.chain()),
{
    let ghost chain = error.chain();
    let mut out = String::new();
    out.append(error.message());
    let mut cur: &Error = error;
    assert(chain.subrange(0, 1) =~= seq![chain[0]]);
    assert(chain.subrange(0, chain.len() as int) =~= chain);
    loop
        invariant
            chain == error.chain(),
            chain.len() >= 1,
            1 <= cur.chain().len() <= chain.len(),
            cur.chain() =~= chain.subrange(chain.len() - cur.chain().len(), chain.len() as int),
            out@ == join(chain.subrange(0, chain.len() - cur.chain().len() + 1), colon_sep()),
        ensures
            out@ == compact_text(chain),
        decreases cur.chain().len(),
    {
        match cur.source() {
            None => {
                assert(chain.subrange(0, chain.len() as int) =~= chain);
                break;
            },
            Some(next) => {
                let ghost k = chain.len() - cur.chain().len() + 1;
                assert(next.chain()[0] == chain[k]);
                proof {
                    reveal_strlit(": ");
                }
                assert(": "@ =~= colon_sep());
                out.append(": ");
                out.append(next.message());
                proof {
                    lemma_join_prefix(chain, colon_sep(), k);
                }
                cur = next;
            },
        }
    }
    out
}

/// Appends the numbered block for the causes of `first` and for `first`
/// itself, counting from zero.
fn push_numbered_block(out: &mut String, first: &Error)
    requires
        first.chain().len() <= usize::MAX,
    ensures
        first.chain().len() >= 1,
        final(out)@ == old(out)@ + join(numbered_lines(first.chain()), seq!['\n']),
{
    let ghost start = out@;
    let ghost causes = first.chain();
    let ghost lines = numbered_lines(causes);
    push_numbered_line(out, 0, first.message());
    assert(lines.subrange(0, 1) =~= seq![lines[0]]);
    let mut cur: &Error = first;
    let mut index: usize = 0;
    loop
        invariant
            causes == first.chain(),
            lines == numbered_lines(causes),
            causes.len() <= usize::MAX,
            1 <= cur.chain().len() <= causes.len(),
            index == causes.len() - cur.chain().len(),
            cur.chain() =~= causes.subrange(index as int, causes.len() as int),
            out@ == start + join(lines.subrange(0, index + 1), seq!['\n']),
        ensures
            out@ == start + join(lines, seq!['\n']),
        decreases cur.chain().len(),
    {
        match cur.source() {
            None => {
                assert(lines.subrange(0, index + 1) =~= lines);
                break;
            },
            Some(next) => {
                proof {
                    reveal_strlit("\n");
                }
                assert("\n"@ =~= seq!['\n']);
                assert(next.chain()[0] == causes[index + 1]);
                out.append("\n");
                index = index + 1;
                push_numbered_line(out, index, next.message());
                proof {
                    lemma_join_prefix(lines, seq!['\n'], index as int);
                }
                assert(out@ =~= start + join(lines.subrange(0, index + 1), seq!['\n']));
                cur = next;
            },
        }
    }
}

/// Expanded rendering of the chain of `error`.
pub fn render_expanded(error: &Error) -> (r: String)
    requires
        error.chain().len() <= usize::MAX,
    ensures
        r@ == expanded_text(error.chain()),
{
    proof {
        reveal_strlit("\n\nCaused by:\n");
        reveal_strlit("    ");
    }
    let ghost chain = error.chain();
    let mut out = String::new();
    out.append(error.message());
    match error.source() {
        None => {
            assert(out@ =~= expanded_text(chain));
        },
        Some(first) => {
            assert("\n\nCaused by:\n"@ =~= caused_by_header());
            out.append("\n\nCaused by:\n");
            match first.source() {
                None => {
                    assert("    "@ =~= seq![' ', ' ', ' ', ' ']);
                    out.append("    ");
                    out.append(first.message());
                    assert(out@ =~= expanded_text(chain));
                },
                Some(_) => {
                    push_numbered_block(&mut out, first);
                    assert(out@ =~= expanded_text(chain));
                },
            }
        },
    }
    out
}

/// A view of an error's whole causal chain, rendered on request.
pub struct ErrorChain<'a> {
    error: &'a Error,
}

impl<'a> ErrorChain<'a> {
    /// The messages of the chain, outermost first.
    pub closed spec fn chain(&self) -> Seq<Seq<char>> {
        self.error.chain()
    }

    /// The chain rendered compactly, or expanded where `alternate` is set.
    pub fn render(&self, alternate: bool) -> (r: String)
        requires
            alternate ==> self.chain().len() <= usize::MAX,
        ensures
            alternate ==> r@ == expanded_text(self.chain()),
            !alternate ==> r@ == compact_text(self.chain()),
    {
        if alternate {
            render_expanded(self.error)
        } else {
            render_compact(self.error)
        }
    }

    /// The chain on one line: its messages joined by `": "`.
    pub fn to_string(&self) -> (r: String)
        ensures
            r@ == compact_text(self.chain()),
    {
        render_compact(self.error)
    }
}

/// The causal chain of `error`, ready to be rendered.
pub fn print_error_chain(error: &Error) -> (r: ErrorChain<'_>)
    ensures
        r.chain() == error.chain(),
{
    ErrorChain { error }
}

/// An error made of one message, with no cause, renders as exactly that
/// message, compact or expanded.
pub proof fn lemma_single_message_renders_as_itself(message: Seq<char>)
    ensures
        compact_text(seq![message]) == message,
        expanded_text(seq![message]) == message,
{
}

/// Compact rendering of a chain of messages is those messages joined by
/// `": "`, outermost first; wrapping a chain with a new message puts that
/// message and `": "` in front of the chain's compact rendering.
pub proof fn lemma_compact_joins_messages(message: Seq<char>, cause: Seq<Seq<char>>)
    requires
        cause.len() >= 1,
    ensures
        compact_text(cause) == join(cause, colon_sep()),
        compact_text(seq![message] + cause) == message + colon_sep() + compact_text(cause),
{
    lemma_join_front(message, cause, colon_sep());
}

/// Expanded rendering of a message with a single cause that has no cause of
/// its own: the message, a blank line, `"Caused by:"` on its own line, then
/// the cause indented by four spaces and unnumbered.
pub proof fn lemma_expanded_single_cause(message: Seq<char>, cause: Seq<char>)
    ensures
        expanded_text(seq![message, cause]) == message + seq!['\n', '\n'] + seq![
            'C',
            'a',
            'u',
            's',
            'e',
            'd',
            ' ',
            'b',
            'y',
            ':',
        ] + seq!['\n'] + seq![' ', ' ', ' ', ' '] + cause,
{
    assert(caused_by_header() =~= seq!['\n', '\n'] + seq![
        'C',
        'a',
        'u',
        's',
        'e',
        'd',
        ' ',
        'b',
        'y',
        ':',
    ] + seq!['\n']);
}

/// Expanded rendering of a chain of three or more messages: after the
/// outermost message and the header come one line per cause, separated by
/// newlines, numbered from 0 for the first cause up to the chain's length
/// minus two for the innermost; below 100000 each index is right-justified
/// in exactly five characters.
pub proof fn lemma_expanded_numbered(chain: Seq<Seq<char>>)
    requires
        chain.len() >= 3,
    ensures
        expanded_text(chain) == chain[0] + caused_by_header() + join(
            numbered_lines(chain.drop_first()),
            seq!['\n'],
        ),
        numbered_lines(chain.drop_first()).len() == chain.len() - 1,
        forall|i: int|
            0 <= i < chain.len() - 1 ==> #[trigger] numbered_lines(chain.drop_first())[i]
                == pad_left(decimal(i as nat), 5) + colon_sep() + chain[i + 1],
        forall|i: nat| i < 100000 ==> (#[trigger] pad_left(decimal(i), 5)).len() == 5,
{
    assert forall|i: nat| i < 100000 implies (#[trigger] pad_left(decimal(i), 5)).len() == 5 by {
        assert(pow10(5) == 100000) by {
            reveal_with_fuel(pow10, 6);
        }
        lemma_decimal_len_within(i, 5);
    }
}

} // verus!
