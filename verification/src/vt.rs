//! The byte stream: `vte`'s parser finds the control functions in it, and the
//! performer carries them out.

use crate::performer::Performer;
use crate::rows;
use crate::model::GridState;
use crate::sequences::{self, Action, ActionState, TermState};
use vstd::prelude::*;
use vstd::slice::slice_to_vec;

verus! {

/// `vte::Parser`, the state between two reads of a byte stream.
#[verifier::external_type_specification]
#[verifier::external_body]
pub struct ExParser<const OSC_RAW_BUF_SIZE: usize>(vte::Parser<OSC_RAW_BUF_SIZE>);

/// `vte::Params`, the parameters of a control sequence.
#[verifier::external_type_specification]
#[verifier::external_body]
pub struct ExParams(vte::Params);

/// What `vte::Params` holds: each parameter with its sub-parameters.
pub uninterp spec fn param_groups(params: vte::Params) -> Seq<Seq<u16>>;

/// `vte::Params::iter`, which hands out each parameter as a slice of itself
/// and its sub-parameters; here each is copied.
#[verifier::external_body]
fn groups_of(params: &vte::Params) -> (groups: Vec<Vec<u16>>)
    ensures
        rows::lines_of(groups@) == param_groups(*params),
{
    params.iter().map(|group| group.to_vec()).collect()
}

/// Writes down what the parser finds, in order.
pub struct Collector {
    pub actions: Vec<Action>,
}

impl vte::Perform for Collector {
    fn print(&mut self, c: char)
        ensures
            final(self).actions@ == old(self).actions@.push(Action::Print(c)),
    {
        self.actions.push(Action::Print(c));
    }

    fn execute(&mut self, byte: u8)
        ensures
            final(self).actions@ == old(self).actions@.push(Action::Execute(byte)),
    {
        self.actions.push(Action::Execute(byte));
    }

    fn csi_dispatch(&mut self, params: &vte::Params, intermediates: &[u8], _ignore: bool, c: char)
        ensures
            sequences::states(final(self).actions@) == sequences::states(
                old(self).actions@,
            ).push(
                (ActionState::Csi {
                    params: param_groups(*params),
                    intermediates: intermediates@,
                    c,
                }),
            ),
    {
        let action = Action::Csi {
            params: groups_of(params),
            intermediates: slice_to_vec(intermediates),
            c,
        };
        let ghost state = action@;
        let ghost before = self.actions@;
        self.actions.push(action);
        assert(sequences::states(self.actions@) =~= sequences::states(before).push(state));
    }

    fn esc_dispatch(&mut self, intermediates: &[u8], _ignore: bool, byte: u8)
        ensures
            sequences::states(final(self).actions@) == sequences::states(
                old(self).actions@,
            ).push((ActionState::Esc { intermediates: intermediates@, byte })),
    {
        let action = Action::Esc { intermediates: slice_to_vec(intermediates), byte };
        let ghost state = action@;
        let ghost before = self.actions@;
        self.actions.push(action);
        assert(sequences::states(self.actions@) =~= sequences::states(before).push(state));
    }

    fn osc_dispatch(&mut self, params: &[&[u8]], _bell_terminated: bool)
        ensures
            sequences::states(final(self).actions@) == sequences::states(
                old(self).actions@,
            ).push((ActionState::Osc { parts: Seq::new(params@.len(), |i: int| params@[i]@) })),
    {
        let ghost wanted = Seq::new(params@.len(), |i: int| params@[i]@);
        let mut parts: Vec<Vec<u8>> = Vec::new();
        let mut i: usize = 0;
        while i < params.len()
            invariant
                i <= params@.len(),
                wanted == Seq::new(params@.len(), |i: int| params@[i]@),
                rows::lines_of(parts@) == wanted.take(i as int),
            decreases params.len() - i,
        {
            let ghost before = parts@;
            let part = slice_to_vec(params[i]);
            let ghost view = part@;
            parts.push(part);
            i = i + 1;
            assert(rows::lines_of(parts@) =~= rows::lines_of(before).push(view));
            assert(wanted.take(i - 1).push(view) =~= wanted.take(i as int));
        }
        assert(wanted.take(params@.len() as int) =~= wanted);
        let action = Action::Osc { parts };
        let ghost state = action@;
        let ghost before = self.actions@;
        self.actions.push(action);
        assert(sequences::states(self.actions@) =~= sequences::states(before).push(state));
    }
}

/// What `vte` finds in `bytes` when its parser is in state `parser`, and the
/// state it is in afterwards.
pub uninterp spec fn advanced(parser: vte::Parser, bytes: Seq<u8>) -> (
    Seq<ActionState>,
    vte::Parser,
);

/// `vte::Parser::advance`, which calls the [`Collector`] for each control
/// function and each printable character. What it finds depends on its state
/// and the bytes alone.
#[verifier::external_body]
fn find_actions(parser: &mut vte::Parser, bytes: &[u8]) -> (actions: Vec<Action>)
    ensures
        (sequences::states(actions@), *final(parser)) == advanced(*old(parser), bytes@),
{
    let mut collector = Collector { actions: Vec::new() };
    parser.advance(&mut collector, bytes);
    collector.actions
}

/// Whether `c` is a C0 or C1 control.
pub open spec fn is_control(c: char) -> bool {
    (c as int) < 0x20 || 0x80 <= c as int <= 0x9f
}

/// What there is to find in `c` where no escape sequence is under way: a
/// control is executed, and every other character printed.
pub open spec fn plain_action(c: char) -> ActionState {
    if is_control(c) { ActionState::Execute(c as u8) } else { ActionState::Print(c) }
}

/// What there is to find in `chars`, one thing for each.
pub open spec fn plain_actions(chars: Seq<char>) -> Seq<ActionState> {
    chars.map_values(|c: char| plain_action(c))
}

/// Whether `bytes` are whole characters without an ESC among them.
pub open spec fn is_plain(bytes: Seq<u8>) -> bool {
    vstd::utf8::valid_utf8(bytes) && !bytes.contains(0x1b)
}

/// Whether a parser is where a stream starts: plain text is read as it is, and
/// leaves the parser where it was.
pub open spec fn at_stream_start(parser: vte::Parser) -> bool {
    forall|bytes: Seq<u8>|
        is_plain(bytes) ==> #[trigger] advanced(parser, bytes) == (
            plain_actions(vstd::utf8::decode_utf8(bytes)),
            parser,
        )
}

/// `vte::Parser::new`, a parser at the start of a stream: in the ground state,
/// with no part of a character pending. Only ESC leaves that state; up to there
/// valid UTF-8 is handed on character by character and nothing is kept of it.
/// What such a parser makes of an escape sequence or of invalid UTF-8 is not
/// said.
pub assume_specification[ vte::Parser::new ]() -> (parser: vte::Parser)
    ensures
        at_stream_start(parser),
;

/// Plain text is read character by character by a parser that stands where a
/// stream starts, and leaves it standing there: the controls of C0 and C1 are
/// executed, and all else is printed.
pub proof fn law_plain_text_is_read_character_by_character(parser: vte::Parser, bytes: Seq<u8>)
    requires
        at_stream_start(parser),
        is_plain(bytes),
    ensures
        ({
            let chars = vstd::utf8::decode_utf8(bytes);
            let (actions, after) = advanced(parser, bytes);
            &&& after == parser
            &&& actions.len() == chars.len()
            &&& forall|i: int|
                0 <= i < chars.len() ==> #[trigger] actions[i] == {
                    let u = chars[i] as int;
                    if u < 32 || 128 <= u < 160 {
                        ActionState::Execute(u as u8)
                    } else {
                        ActionState::Print(chars[i])
                    }
                }
        }),
{
}

/// The first `n` of `chars` printed one after the other.
pub open spec fn printed(grid: GridState, chars: Seq<char>, n: int) -> GridState
    decreases n,
{
    if n <= 0 { grid } else { printed(grid, chars, n - 1).put(chars[n - 1]) }
}

/// Text without controls that a new parser reads is printed as it stands, each
/// character in turn, and nothing is answered.
pub proof fn law_plain_text_is_printed(s: TermState, parser: vte::Parser, bytes: Seq<u8>)
    requires
        at_stream_start(parser),
        is_plain(bytes),
        forall|i: int|
            0 <= i < vstd::utf8::decode_utf8(bytes).len() ==> !is_control(
                #[trigger] vstd::utf8::decode_utf8(bytes)[i],
            ),
    ensures
        ({
            let chars = vstd::utf8::decode_utf8(bytes);
            let (actions, _) = advanced(parser, bytes);
            s.perform_all(actions, actions.len() as int) == TermState {
                grid: printed(s.grid, chars, chars.len() as int),
                reply: s.reply,
            }
        }),
{
    let chars = vstd::utf8::decode_utf8(bytes);
    law_plain_text_is_read_character_by_character(parser, bytes);
    lemma_printed(s, advanced(parser, bytes).0, chars, chars.len() as int);
}

proof fn lemma_printed(s: TermState, actions: Seq<ActionState>, chars: Seq<char>, n: int)
    requires
        0 <= n <= chars.len(),
        actions.len() == chars.len(),
        forall|i: int| 0 <= i < chars.len() ==> #[trigger] actions[i] == plain_action(chars[i]),
        forall|i: int| 0 <= i < chars.len() ==> !is_control(#[trigger] chars[i]),
    ensures
        s.perform_all(actions, n) == (TermState {
            grid: printed(s.grid, chars, n),
            reply: s.reply,
        }),
    decreases n,
{
    if n > 0 {
        lemma_printed(s, actions, chars, n - 1);
        assert(actions[n - 1] == plain_action(chars[n - 1]));
    }
}

/// The parser of one byte stream.
pub struct VtParser {
    pub inner: vte::Parser,
}

impl VtParser {
    /// The parser of a stream that nothing was read from yet.
    pub fn new() -> (parser: VtParser)
        ensures
            at_stream_start(parser.inner),
    {
        VtParser { inner: vte::Parser::new() }
    }

    /// What is found in `bytes`, read after everything read before.
    pub fn read(&mut self, bytes: &[u8]) -> (actions: Vec<Action>)
        ensures
            (sequences::states(actions@), final(self).inner) == advanced(
                old(self).inner,
                bytes@,
            ),
    {
        find_actions(&mut self.inner, bytes)
    }

    /// Reads `bytes` and carries out what is found in them.
    ///
    /// What would scroll off more lines than can still be counted is left
    /// out, and `false` comes back where anything was.
    pub fn advance(&mut self, performer: &mut Performer, bytes: &[u8]) -> (done: bool)
        requires
            old(performer).wf(),
        ensures
            final(performer).wf(),
            *final(final(performer).grid) == *final(old(performer).grid),
            ({
                let (actions, parser) = advanced(old(self).inner, bytes@);
                let start = old(performer).state();
                &&& final(self).inner == parser
                &&& done == start.all_fit(actions, actions.len() as int)
                &&& start.grid.has_room(actions.len() * (start.grid.rows + 1)) ==> done
                &&& final(performer).state() == start.perform_fitting(
                    actions,
                    actions.len() as int,
                )
                &&& start.all_print_narrow(actions, actions.len() as int)
            }),
    {
        let actions = self.read(bytes);
        performer.perform_all(actions.as_slice())
    }
}

} // verus!
