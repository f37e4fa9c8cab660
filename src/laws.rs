use vstd::prelude::*;
use crate::cmakelists::{
    flush, function_name, function_of, initial_scan, is_skipped, join, render_document,
    render_statement, run, scan, step, CMakeListsFunction, ScanState, ValModel,
};

verus! {

/// A character that can stand inside a token: no parenthesis, space,
/// newline, tab or carriage return.
pub open spec fn is_token_char(c: char) -> bool {
    c != '(' && c != ')' && c != ' ' && !is_skipped(c)
}

/// A non-empty run of token characters.
pub open spec fn is_token(w: Seq<char>) -> bool {
    w.len() > 0 && forall|k: int| 0 <= k < w.len() ==> is_token_char(#[trigger] w[k])
}

/// A statement that the grammar can express: a real head and tokens as arguments.
pub open spec fn well_formed(v: ValModel) -> bool {
    &&& v.function != CMakeListsFunction::Unset
    &&& forall|j: int| 0 <= j < v.values.len() ==> is_token(#[trigger] v.values[j])
}

/// The state between two statements, once `done` has been read.
pub open spec fn between(done: Seq<ValModel>) -> ScanState {
    ScanState { done: done, ..initial_scan() }
}

/// Scanning two texts one after the other is scanning their concatenation.
pub proof fn lemma_run_concat(s: ScanState, x: Seq<char>, y: Seq<char>, base: int)
    ensures
        run(s, x + y, base) == run(run(s, x, base), y, base + x.len()),
    decreases y.len(),
{
    if y.len() == 0 {
        assert(x + y == x);
    } else {
        assert((x + y).drop_last() == x + y.drop_last());
        lemma_run_concat(s, x, y.drop_last(), base);
    }
}

/// Scanning one character is one step.
proof fn lemma_run_one(s: ScanState, c: char, base: int)
    ensures
        run(s, seq![c], base) == step(s, c, base as usize),
{
    assert(seq![c].drop_last() =~= Seq::<char>::empty());
    assert(run(s, Seq::<char>::empty(), base) == s);
}

/// Token characters only grow the buffer.
proof fn lemma_run_token(s: ScanState, w: Seq<char>, base: int)
    requires
        s.error is None,
        forall|k: int| 0 <= k < w.len() ==> is_token_char(#[trigger] w[k]),
    ensures
        run(s, w, base) == (ScanState { buffer: s.buffer + w, ..s }),
    decreases w.len(),
{
    if w.len() == 0 {
        assert(s.buffer + w == s.buffer);
    } else {
        lemma_run_token(s, w.drop_last(), base);
        assert(is_token_char(w[w.len() - 1]));
        assert((s.buffer + w.drop_last()).push(w.last()) =~= s.buffer + w);
    }
}

/// Each head's name is a token that names that head.
proof fn lemma_function_name(f: CMakeListsFunction)
    requires
        f != CMakeListsFunction::Unset,
    ensures
        function_of(function_name(f)) == Some(f),
        forall|k: int|
            0 <= k < function_name(f).len() ==> is_token_char(#[trigger] function_name(f)[k]),
{
    reveal_strlit("cmake_minimum_required");
    reveal_strlit("project");
    reveal_strlit("add_executable");
    assert("cmake_minimum_required"@.len() == 22);
    assert("project"@.len() == 7);
    assert("add_executable"@.len() == 14);
}

/// Inside an argument list, the joined tokens leave all but the last as
/// arguments and the last in the buffer.
proof fn lemma_run_arguments(s: ScanState, values: Seq<Seq<char>>, base: int)
    requires
        s.error is None,
        s.in_list,
        s.buffer.len() == 0,
        forall|j: int| 0 <= j < values.len() ==> is_token(#[trigger] values[j]),
    ensures
        values.len() == 0 ==> run(s, join(values, ' '), base) == s,
        values.len() > 0 ==> run(s, join(values, ' '), base) == (ScanState {
            current: ValModel {
                function: s.current.function,
                values: s.current.values + values.drop_last(),
            },
            buffer: values.last(),
            ..s
        }),
    decreases values.len(),
{
    if values.len() == 0 {
    } else if values.len() == 1 {
        assert(is_token(values[0]));
        lemma_run_token(s, values[0], base);
        assert(s.buffer + values[0] =~= values[0]);
        assert(s.current.values + values.drop_last() =~= s.current.values);
    } else {
        let front = values.drop_last();
        let head = join(front, ' ');
        assert(forall|j: int| 0 <= j < front.len() ==> #[trigger] front[j] == values[j]);
        lemma_run_arguments(s, front, base);
        let s1 = run(s, head, base);
        lemma_run_concat(s, head, seq![' '], base);
        lemma_run_one(s1, ' ', base + head.len());
        let s2 = run(s, head + seq![' '], base);
        assert(is_token(front.last()));
        assert(s2.current.values == (s.current.values + front.drop_last()).push(front.last()));
        assert((s.current.values + front.drop_last()).push(front.last()) =~= s.current.values
            + values.drop_last());
        assert(is_token(values.last()));
        lemma_run_concat(s, head + seq![' '], values.last(), base);
        lemma_run_token(s2, values.last(), base + (head + seq![' ']).len());
        assert(s2.buffer + values.last() =~= values.last());
    }
}

/// A well-formed statement read between statements is added to those read.
proof fn lemma_run_statement(done: Seq<ValModel>, v: ValModel, base: int)
    requires
        well_formed(v),
    ensures
        run(between(done), render_statement(v), base) == between(done.push(v)),
{
    let s0 = between(done);
    let name = function_name(v.function);
    lemma_function_name(v.function);
    lemma_run_token(s0, name, base);
    assert(s0.buffer + name =~= name);
    let s1 = run(s0, name, base);
    lemma_run_concat(s0, name, seq!['('], base);
    lemma_run_one(s1, '(', base + name.len());
    let s2 = run(s0, name + seq!['('], base);
    assert(s2.current == ValModel { function: v.function, values: Seq::empty() });
    let args = join(v.values, ' ');
    lemma_run_arguments(s2, v.values, base + name.len() + 1);
    lemma_run_concat(s0, name + seq!['('], args, base);
    let s3 = run(s0, name + seq!['('] + args, base);
    lemma_run_concat(s0, name + seq!['('] + args, seq![')'], base);
    lemma_run_one(s3, ')', base + (name + seq!['('] + args).len());
    let s4 = run(s0, name + seq!['('] + args + seq![')'], base);
    if v.values.len() == 0 {
        assert(v.values =~= Seq::<Seq<char>>::empty());
        assert(flush(s3.current, s3.buffer) == v);
    } else {
        assert((Seq::<Seq<char>>::empty() + v.values.drop_last()).push(v.values.last())
            =~= v.values);
        assert(flush(s3.current, s3.buffer) == v);
    }
    assert(s4.done == done.push(v));
}

/// Rendering statements that the grammar can express and parsing the text
/// gives back the same statements, in the same order, with no error.
pub proof fn lemma_round_trip(vals: Seq<ValModel>)
    requires
        forall|j: int| 0 <= j < vals.len() ==> well_formed(#[trigger] vals[j]),
    ensures
        scan(render_document(vals)) == between(vals),
        scan(render_document(vals)).done == vals,
        scan(render_document(vals)).error is None,
    decreases vals.len(),
{
    let lines = vals.map_values(|v: ValModel| render_statement(v));
    if vals.len() == 0 {
        assert(render_document(vals) =~= Seq::<char>::empty());
        assert(vals =~= Seq::<ValModel>::empty());
        assert(between(vals) == initial_scan());
    } else {
        let front = vals.drop_last();
        assert(forall|j: int| 0 <= j < front.len() ==> #[trigger] front[j] == vals[j]);
        lemma_round_trip(front);
        let front_lines = front.map_values(|v: ValModel| render_statement(v));
        assert(lines.drop_last() == front_lines);
        let last = render_statement(vals.last());
        assert(well_formed(vals[vals.len() - 1]));
        if vals.len() == 1 {
            assert(render_document(vals) == last);
            lemma_run_statement(Seq::empty(), vals.last(), 0);
            assert(between(Seq::empty()) == initial_scan());
            assert(Seq::<ValModel>::empty().push(vals.last()) == vals);
        } else {
            let head = render_document(front) + seq!['\n'];
            assert(render_document(vals) == head + last);
            lemma_run_concat(initial_scan(), render_document(front), seq!['\n'], 0);
            lemma_run_one(between(front), '\n', render_document(front).len() as int);
            lemma_run_concat(initial_scan(), head, last, 0);
            lemma_run_statement(front, vals.last(), head.len() as int);
            assert(front.push(vals.last()) == vals);
        }
    }
}

/// Every completed statement has a real head, and so has an open one.
pub open spec fn heads_set(s: ScanState) -> bool {
    &&& s.in_list ==> s.current.function != CMakeListsFunction::Unset
    &&& forall|j: int|
        0 <= j < s.done.len() ==> (#[trigger] s.done[j]).function != CMakeListsFunction::Unset
}

/// Scanning keeps every head set.
proof fn lemma_run_heads(s: ScanState, text: Seq<char>, base: int)
    requires
        heads_set(s),
    ensures
        heads_set(run(s, text, base)),
    decreases text.len(),
{
    if text.len() > 0 {
        lemma_run_heads(s, text.drop_last(), base);
        let before = run(s, text.drop_last(), base);
        let after = run(s, text, base);
        if before.error is None && text.last() == ')' && before.in_list {
            assert forall|j: int| 0 <= j < after.done.len() implies (#[trigger] after.done[j]).function
                != CMakeListsFunction::Unset by {
                if j < before.done.len() {
                    assert(after.done[j] == before.done[j]);
                }
            }
        }
    }
}

/// No statement that a parse completes has the empty head `Unset`.
pub proof fn lemma_parsed_statements_have_heads(text: Seq<char>)
    ensures
        forall|j: int|
            0 <= j < scan(text).done.len() ==> (#[trigger] scan(text).done[j]).function
                != CMakeListsFunction::Unset,
{
    lemma_run_heads(initial_scan(), text, 0);
}

/// Two scan states that differ at most in the position that an error names.
pub open spec fn same_but_position(a: ScanState, b: ScanState) -> bool {
    &&& a.done == b.done
    &&& a.current == b.current
    &&& a.buffer == b.buffer
    &&& a.in_list == b.in_list
    &&& (a.error is Some <==> b.error is Some)
}

/// Where a text stands in the input changes only the positions that errors name.
proof fn lemma_run_shifted(a: ScanState, b: ScanState, text: Seq<char>, base_a: int, base_b: int)
    requires
        same_but_position(a, b),
    ensures
        same_but_position(run(a, text, base_a), run(b, text, base_b)),
    decreases text.len(),
{
    if text.len() > 0 {
        lemma_run_shifted(a, b, text.drop_last(), base_a, base_b);
    }
}

/// A newline, tab or carriage return put anywhere in a text changes
/// neither the statements that a parse gives nor whether it fails.
pub proof fn lemma_skipped_character(x: Seq<char>, c: char, y: Seq<char>)
    requires
        is_skipped(c),
    ensures
        scan(x + seq![c] + y).done == scan(x + y).done,
        scan(x + seq![c] + y).error is Some <==> scan(x + y).error is Some,
{
    let s = scan(x);
    lemma_run_concat(initial_scan(), x, seq![c], 0);
    lemma_run_one(s, c, x.len() as int);
    lemma_run_concat(initial_scan(), x + seq![c], y, 0);
    lemma_run_concat(initial_scan(), x, y, 0);
    lemma_run_shifted(s, s, y, x.len() + 1 as int, x.len() as int);
}

} // verus!
