//! The connection handler's decision logic, one line at a time: which tool
//! invocation a line triggers, and which acknowledgment (if any) goes back
//! to the client afterwards. The handler keeps no state across lines, so a
//! whole connection's invocations are the per-line invocations in arrival
//! order; `session_invocations` states that and the lemmas here prove it.

use vstd::prelude::*;
use crate::framing::{complete_lines, lemma_framing_incremental, partial_rest, LineFramer};
use crate::grammar::{
    is_connect_line, is_disconnect_line, is_pair_line, parse, Command,
};
use crate::invoke::{
    connect_word, disconnect_word, pair_word, invocation_args, InvocationError, InvocationResult,
};

verus! {

/// The bytes of the acknowledgment line `ok\n`.
pub open spec fn ok_line() -> Seq<u8> {
    seq![111u8, 107u8, 10u8]
}

/// The tool invocation (an argument vector) that one input line triggers,
/// or nothing for an unrecognized line.
pub open spec fn line_invocation(line: Seq<u8>) -> Option<Seq<Seq<u8>>> {
    if is_connect_line(line) {
        Some(seq![connect_word(), line.subrange(2, line.len() as int)])
    } else if is_disconnect_line(line) {
        Some(seq![disconnect_word(), line.subrange(2, line.len() as int)])
    } else if is_pair_line(line) {
        Some(
            seq![
                pair_word(),
                line.subrange(2, line.len() - 7),
                line.subrange(line.len() - 6, line.len() as int),
            ],
        )
    } else {
        None
    }
}

/// Parses one line and plans its invocation: the returned argument vector
/// is exactly `line_invocation` of the line.
pub fn line_action(line: &[u8]) -> (r: Option<Vec<Vec<u8>>>)
    ensures
        match r {
            Some(a) => line_invocation(line@) == Some(a.deep_view()),
            None => line_invocation(line@) is None,
        },
{
    let cmd = parse(line);
    let r = invocation_args(&cmd);
    proof {
        crate::grammar::lemma_line_classes_disjoint(line@);
        if let Some(a) = &r {
            assert(a.deep_view().len() == a@.len());
            assert forall|i: int| 0 <= i < a@.len() implies a.deep_view()[i] == a@[i]@ by {
                assert(a@[i].deep_view() =~= a@[i]@);
            }
            assert(line_invocation(line@) == Some(a.deep_view())) by {
                assert(a.deep_view() =~= line_invocation(line@).unwrap());
            }
        }
    }
    r
}

/// The response owed to the client once a line's invocation has finished:
/// exactly the single line `ok\n` after a successful Pair, and nothing in
/// every other case. Success is the invocation's exit-status flag alone.
pub fn response_for(cmd: &Command, outcome: &Result<InvocationResult, InvocationError>) -> (r:
    Option<Vec<u8>>)
    ensures
        (r is Some) <==> (cmd matches Command::Pair { .. } && outcome matches Ok(inv)
            && inv.success),
        r matches Some(v) ==> v@ == ok_line(),
{
    match cmd {
        Command::Pair { .. } => match outcome {
            Ok(inv) => {
                if inv.success {
                    let mut v: Vec<u8> = Vec::new();
                    v.push(111);
                    v.push(107);
                    v.push(10);
                    proof {
                        assert(v@ =~= ok_line());
                    }
                    Some(v)
                } else {
                    None
                }
            },
            Err(_) => None,
        },
        _ => None,
    }
}

/// All invocations a connection makes, in order: the lines' invocations,
/// one after the other, in the lines' arrival order.
pub open spec fn session_invocations(lines: Seq<Seq<u8>>) -> Seq<Seq<Seq<u8>>>
    decreases lines.len(),
{
    if lines.len() == 0 {
        Seq::empty()
    } else {
        (match line_invocation(lines[0]) {
            Some(a) => seq![a],
            None => Seq::empty(),
        }) + session_invocations(lines.drop_first())
    }
}

/// Lines are handled strictly in arrival order with no state carried
/// between them: the invocations of one stream of lines followed by another
/// are the first stream's invocations followed by the second's.
pub proof fn lemma_session_concat(l1: Seq<Seq<u8>>, l2: Seq<Seq<u8>>)
    ensures
        session_invocations(l1 + l2) == session_invocations(l1) + session_invocations(l2),
    decreases l1.len(),
{
    if l1.len() == 0 {
        assert(l1 + l2 =~= l2);
        assert(session_invocations(l1) + session_invocations(l2) =~= session_invocations(l2));
    } else {
        assert((l1 + l2).drop_first() =~= l1.drop_first() + l2);
        lemma_session_concat(l1.drop_first(), l2);
        assert((l1 + l2)[0] == l1[0]);
        assert(session_invocations(l1) + session_invocations(l2) =~= session_invocations(l1 + l2));
    }
}

/// A session of exactly one line makes exactly that line's invocation.
pub proof fn lemma_session_single(l: Seq<u8>)
    ensures
        session_invocations(seq![l]) == (match line_invocation(l) {
            Some(a) => seq![a],
            None => Seq::<Seq<Seq<u8>>>::empty(),
        }),
{
    let rest = seq![l].drop_first();
    assert(rest =~= Seq::<Seq<u8>>::empty());
    assert(session_invocations(rest) == Seq::<Seq<Seq<u8>>>::empty());
    assert(seq![l][0] == l);
    assert(session_invocations(seq![l]) =~= (match line_invocation(l) {
        Some(a) => seq![a],
        None => Seq::<Seq<Seq<u8>>>::empty(),
    }));
}

/// Sending the same command line twice yields two invocations, each the
/// line's own, independent of one another's outcome.
pub proof fn lemma_repeated_line(l: Seq<u8>, a: Seq<Seq<u8>>)
    requires
        line_invocation(l) == Some(a),
    ensures
        session_invocations(seq![l, l]) == seq![a, a],
{
    assert(seq![l, l] =~= seq![l] + seq![l]);
    lemma_session_concat(seq![l], seq![l]);
    lemma_session_single(l);
    assert(session_invocations(seq![l, l]) =~= seq![a, a]);
}

/// Two command lines in one connection are dispatched in arrival order:
/// the first line's invocation strictly precedes the second's.
pub proof fn lemma_lines_in_arrival_order(l1: Seq<u8>, l2: Seq<u8>, a1: Seq<Seq<u8>>, a2: Seq<
    Seq<u8>,
>)
    requires
        line_invocation(l1) == Some(a1),
        line_invocation(l2) == Some(a2),
    ensures
        session_invocations(seq![l1, l2]) == seq![a1, a2],
{
    assert(seq![l1, l2] =~= seq![l1] + seq![l2]);
    lemma_session_concat(seq![l1], seq![l2]);
    lemma_session_single(l1);
    lemma_session_single(l2);
    assert(session_invocations(seq![l1, l2]) =~= seq![a1, a2]);
}

/// Plans a whole session at once: the argument vectors for a stream of
/// lines, in arrival order, exactly `session_invocations` of the lines.
pub fn collect_invocations(lines: &Vec<Vec<u8>>) -> (r: Vec<Vec<Vec<u8>>>)
    ensures
        r.deep_view() == session_invocations(lines.deep_view()),
{
    let ghost all = lines.deep_view();
    let mut r: Vec<Vec<Vec<u8>>> = Vec::new();
    let mut i: usize = 0;
    proof {
        assert(r.deep_view() =~= session_invocations(all.take(0)));
    }
    while i < lines.len()
        invariant
            0 <= i <= lines@.len(),
            all == lines.deep_view(),
            all.len() == lines@.len(),
            forall|j: int| 0 <= j < lines@.len() ==> all[j] == lines@[j]@,
            r.deep_view() == session_invocations(all.take(i as int)),
        decreases lines@.len() - i,
    {
        let line = vec_element(lines, i);
        let ghost prev = r.deep_view();
        let action = line_action(line.as_slice());
        match action {
            Some(a) => {
                r.push(a);
            },
            None => {},
        }
        proof {
            assert(all.take(i + 1) =~= all.take(i as int) + seq![all[i as int]]);
            lemma_session_concat(all.take(i as int), seq![all[i as int]]);
            lemma_session_single(all[i as int]);
            assert(r.deep_view() =~= session_invocations(all.take(i + 1)));
        }
        i = i + 1;
    }
    proof {
        assert(all.take(lines@.len() as int) =~= all);
    }
    r
}

/// Plans a whole connection from its raw byte chunks: however the stream
/// was cut into chunks, the invocations are exactly those of the stream's
/// newline-terminated lines, in arrival order; bytes after the last newline
/// (a final partial line) trigger nothing.
pub fn plan_connection(chunks: &Vec<Vec<u8>>) -> (r: Vec<Vec<Vec<u8>>>)
    ensures
        r.deep_view() == session_invocations(complete_lines(chunks.deep_view().flatten())),
{
    let ghost all = chunks.deep_view();
    let mut framer = LineFramer::new();
    let mut out: Vec<Vec<Vec<u8>>> = Vec::new();
    let mut i: usize = 0;
    proof {
        assert(all.take(0).flatten_alt() =~= Seq::<u8>::empty());
        assert(framer@ == partial_rest(all.take(0).flatten_alt()));
        assert(out.deep_view() =~= session_invocations(
            complete_lines(all.take(0).flatten_alt()),
        ));
    }
    while i < chunks.len()
        invariant
            0 <= i <= chunks@.len(),
            all == chunks.deep_view(),
            all.len() == chunks@.len(),
            forall|j: int| 0 <= j < all.len() ==> all[j] == chunks@[j]@,
            framer.wf(),
            framer@ == partial_rest(all.take(i as int).flatten_alt()),
            out.deep_view() == session_invocations(complete_lines(all.take(i as int).flatten_alt())),
        decreases chunks@.len() - i,
    {
        let ghost stream = all.take(i as int).flatten_alt();
        let ghost pend = framer@;
        let chunk = vec_element(chunks, i);
        let lines = framer.push_chunk(chunk.as_slice());
        let mut actions = collect_invocations(&lines);
        let ghost prev_out = out.deep_view();
        let ghost actions_view = actions.deep_view();
        out.append(&mut actions);
        proof {
            let stream2 = all.take(i + 1).flatten_alt();
            assert(all.take(i + 1).drop_last() =~= all.take(i as int));
            assert(all.take(i + 1).last() == all[i as int]);
            assert(stream2 == stream + all[i as int]);
            lemma_framing_incremental(stream, all[i as int]);
            lemma_session_concat(
                complete_lines(stream),
                complete_lines(pend + all[i as int]),
            );
            assert(out.deep_view() =~= prev_out + actions_view);
        }
        i = i + 1;
    }
    proof {
        assert(all.take(all.len() as int) =~= all);
        all.lemma_flatten_and_flatten_alt_are_equivalent();
    }
    out
}

/// Borrows element `i` of a vector of byte strings.
fn vec_element(lines: &Vec<Vec<u8>>, i: usize) -> (r: &Vec<u8>)
    requires
        i < lines@.len(),
    ensures
        *r == lines@[i as int],
{
    &lines[i]
}

} // verus!
