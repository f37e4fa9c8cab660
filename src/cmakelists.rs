use vstd::prelude::*;
use vstd::string::*;

verus! {

/// The statement heads that a manifest may use. `Unset` is only the empty
/// state of a statement under construction; it never appears in a parse result.
#[derive(Clone, Copy, Debug, PartialEq, Eq, Structural)]
pub enum CMakeListsFunction {
    CmakeMinimumRequired,
    Project,
    AddExecutable,
    Unset,
}

/// The canonical text of each statement head.
pub open spec fn function_name(f: CMakeListsFunction) -> Seq<char> {
    match f {
        CMakeListsFunction::CmakeMinimumRequired => "cmake_minimum_required"@,
        CMakeListsFunction::Project => "project"@,
        CMakeListsFunction::AddExecutable => "add_executable"@,
        CMakeListsFunction::Unset => ""@,
    }
}

/// The statement head that a name denotes, if the name is recognised.
pub open spec fn function_of(name: Seq<char>) -> Option<CMakeListsFunction> {
    if name == "cmake_minimum_required"@ {
        Some(CMakeListsFunction::CmakeMinimumRequired)
    } else if name == "project"@ {
        Some(CMakeListsFunction::Project)
    } else if name == "add_executable"@ {
        Some(CMakeListsFunction::AddExecutable)
    } else {
        None
    }
}

/// True when two strings hold the same characters.
pub(crate) fn same_chars(a: &str, b: &str) -> (r: bool)
    ensures
        r == (a@ == b@),
{
    let n = a.unicode_len();
    if n != b.unicode_len() {
        return false;
    }
    let mut i: usize = 0;
    while i < n
        invariant
            n == a@.len(),
            n == b@.len(),
            i <= n,
            a@.subrange(0, i as int) == b@.subrange(0, i as int),
        decreases n - i,
    {
        if a.get_char(i) != b.get_char(i) {
            return false;
        }
        assert(a@.subrange(0, i + 1) == a@.subrange(0, i as int).push(a@[i as int]));
        assert(b@.subrange(0, i + 1) == b@.subrange(0, i as int).push(b@[i as int]));
        i = i + 1;
    }
    assert(a@ == a@.subrange(0, n as int));
    assert(b@ == b@.subrange(0, n as int));
    true
}

impl CMakeListsFunction {
    /// The canonical text of this head (empty for `Unset`).
    pub fn name(&self) -> (r: &'static str)
        ensures
            r@ == function_name(*self),
    {
        match self {
            CMakeListsFunction::CmakeMinimumRequired => "cmake_minimum_required",
            CMakeListsFunction::Project => "project",
            CMakeListsFunction::AddExecutable => "add_executable",
            CMakeListsFunction::Unset => "",
        }
    }

    /// Recognises a head by its exact, case-sensitive name.
    pub fn from_name(s: &str) -> (r: Option<CMakeListsFunction>)
        ensures
            r == function_of(s@),
    {
        if same_chars(s, "cmake_minimum_required") {
            Some(CMakeListsFunction::CmakeMinimumRequired)
        } else if same_chars(s, "project") {
            Some(CMakeListsFunction::Project)
        } else if same_chars(s, "add_executable") {
            Some(CMakeListsFunction::AddExecutable)
        } else {
            None
        }
    }
}


/// What a statement means: its head and its argument tokens, in order.
pub struct ValModel {
    pub function: CMakeListsFunction,
    pub values: Seq<Seq<char>>,
}

/// One manifest statement: a head and its argument tokens, kept in source order.
#[derive(Debug)]
pub struct CMakeListsVal {
    pub function: CMakeListsFunction,
    pub values: Vec<String>,
}

impl View for CMakeListsVal {
    type V = ValModel;

    open spec fn view(&self) -> ValModel {
        ValModel { function: self.function, values: self.values@.map_values(|s: String| s@) }
    }
}

/// The meaning of a sequence of statements.
pub open spec fn models(vals: Seq<CMakeListsVal>) -> Seq<ValModel> {
    vals.map_values(|v: CMakeListsVal| v@)
}

/// The statement under construction before any head was read.
pub open spec fn empty_model() -> ValModel {
    ValModel { function: CMakeListsFunction::Unset, values: Seq::empty() }
}

/// The words joined by one separator between each two neighbours.
pub open spec fn join(words: Seq<Seq<char>>, sep: char) -> Seq<char>
    decreases words.len(),
{
    if words.len() == 0 {
        Seq::empty()
    } else if words.len() == 1 {
        words[0]
    } else {
        join(words.drop_last(), sep) + seq![sep] + words.last()
    }
}

/// `name(arg1 arg2 ... argN)`; with no arguments, `name()`.
pub open spec fn render_statement(v: ValModel) -> Seq<char> {
    function_name(v.function) + seq!['('] + join(v.values, ' ') + seq![')']
}

/// The statements rendered one per line, with no newline after the last.
pub open spec fn render_document(vals: Seq<ValModel>) -> Seq<char> {
    join(vals.map_values(|v: ValModel| render_statement(v)), '\n')
}

/// Relies on String::push: the character is added at the end of the string.
#[verifier::external_body]
fn push_char(s: &mut String, c: char)
    ensures
        final(s)@ == old(s)@.push(c),
{
    s.push(c)
}

/// Adding one more word to a joined sequence.
proof fn lemma_join_push(words: Seq<Seq<char>>, w: Seq<char>, sep: char)
    ensures
        join(words.push(w), sep) == if words.len() == 0 {
            w
        } else {
            join(words, sep) + seq![sep] + w
        },
{
    assert(words.push(w).drop_last() == words);
}

impl CMakeListsVal {
    /// A statement with no head and no arguments.
    pub fn new() -> (r: Self)
        ensures
            r@ == empty_model(),
    {
        let r = CMakeListsVal { function: CMakeListsFunction::Unset, values: Vec::new() };
        assert(r@.values == Seq::<Seq<char>>::empty());
        r
    }

    /// Resets the statement to the state that `new` gives.
    pub fn clear(&mut self)
        ensures
            final(self)@ == empty_model(),
    {
        self.function = CMakeListsFunction::Unset;
        self.values.clear();
        assert(self@.values == Seq::<Seq<char>>::empty());
    }

    /// The statement as manifest text.
    pub fn to_text(&self) -> (r: String)
        ensures
            r@ == render_statement(self@),
    {
        let mut out = String::from_str(self.function.name());
        push_char(&mut out, '(');
        let ghost head = out@;
        let n = self.values.len();
        let mut i: usize = 0;
        while i < n
            invariant
                n == self.values.len(),
                i <= n,
                out@ == head + join(self@.values.take(i as int), ' '),
            decreases n - i,
        {
            proof {
                lemma_join_push(self@.values.take(i as int), self@.values[i as int], ' ');
                assert(self@.values.take(i as int).push(self@.values[i as int]) == self@.values.take(i + 1));
            }
            if i > 0 {
                push_char(&mut out, ' ');
            }
            out.append(self.values[i].as_str());
            i = i + 1;
        }
        assert(self@.values.take(n as int) == self@.values);
        push_char(&mut out, ')');
        out
    }
}

/// The statements, with `extra` added at the end of the arguments of each
/// statement whose head is `function`; the others as they were.
pub open spec fn with_values_added(
    vals: Seq<ValModel>,
    function: CMakeListsFunction,
    extra: Seq<Seq<char>>,
) -> Seq<ValModel> {
    vals.map_values(
        |v: ValModel|
            if v.function == function {
                ValModel { function: v.function, values: v.values + extra }
            } else {
                v
            },
    )
}

/// The views of a sequence of strings.
pub open spec fn texts(v: Seq<String>) -> Seq<Seq<char>> {
    v.map_values(|s: String| s@)
}

impl CMakeListsVal {
    /// Adds copies of `extra` after the existing arguments, in order.
    pub fn add_values(&mut self, extra: &Vec<String>)
        ensures
            final(self)@ == (ValModel {
                function: old(self)@.function,
                values: old(self)@.values + texts(extra@),
            }),
    {
        let ghost start = self@.values;
        let n = extra.len();
        let mut i: usize = 0;
        while i < n
            invariant
                n == extra.len(),
                i <= n,
                self.function == old(self).function,
                start == old(self)@.values,
                self@.values == start + texts(extra@).take(i as int),
            decreases n - i,
        {
            let ghost prev = self.values@;
            self.values.push(extra[i].clone());
            proof {
                assert(self.values@ == prev.push(extra@[i as int]));
                assert(texts(self.values@) =~= texts(prev).push(extra@[i as int]@));
                assert(texts(extra@).take(i + 1) =~= texts(extra@).take(i as int).push(extra@[i as int]@));
                assert(self@.values =~= start + texts(extra@).take(i + 1));
            }
            i = i + 1;
        }
        assert(texts(extra@).take(n as int) =~= texts(extra@));
    }
}

/// Adds copies of `extra` to the arguments of every statement whose head is
/// `function`; a sequence with no such statement is left as it was.
pub fn add_to_function(
    cmake_vals: &mut Vec<CMakeListsVal>,
    function: CMakeListsFunction,
    extra: &Vec<String>,
)
    ensures
        models(final(cmake_vals)@) == with_values_added(
            models(old(cmake_vals)@),
            function,
            texts(extra@),
        ),
{
    let ghost start = models(cmake_vals@);
    let ghost goal = with_values_added(start, function, texts(extra@));
    let n = cmake_vals.len();
    let mut j: usize = 0;
    while j < n
        invariant
            n == cmake_vals.len(),
            j <= n,
            start == models(old(cmake_vals)@),
            goal == with_values_added(start, function, texts(extra@)),
            start.len() == n,
            forall|k: int| 0 <= k < j ==> #[trigger] models(cmake_vals@)[k] == goal[k],
            forall|k: int| j <= k < n ==> #[trigger] models(cmake_vals@)[k] == start[k],
        decreases n - j,
    {
        let ghost before = cmake_vals@;
        assert(models(before)[j as int] == start[j as int]);
        if cmake_vals[j].function == function {
            cmake_vals[j].add_values(extra);
        }
        proof {
            assert forall|k: int| 0 <= k < n && k != j implies #[trigger] models(cmake_vals@)[k]
                == models(before)[k] by {
                assert(cmake_vals@[k] == before[k]);
            }
            assert(models(cmake_vals@)[j as int] == goal[j as int]);
        }
        j = j + 1;
    }
    assert(models(cmake_vals@) =~= goal);
}

/// The statements as manifest text: one per line, no trailing newline.
pub fn serialize(vals: &Vec<CMakeListsVal>) -> (r: String)
    ensures
        r@ == render_document(models(vals@)),
{
    let ghost lines = models(vals@).map_values(|v: ValModel| render_statement(v));
    let mut out = String::new();
    let n = vals.len();
    let mut i: usize = 0;
    while i < n
        invariant
            n == vals.len(),
            i <= n,
            lines == models(vals@).map_values(|v: ValModel| render_statement(v)),
            out@ == join(lines.take(i as int), '\n'),
        decreases n - i,
    {
        proof {
            lemma_join_push(lines.take(i as int), lines[i as int], '\n');
            assert(lines.take(i as int).push(lines[i as int]) == lines.take(i + 1));
        }
        if i > 0 {
            push_char(&mut out, '\n');
        }
        let line = vals[i].to_text();
        out.append(line.as_str());
        i = i + 1;
    }
    assert(lines.take(n as int) == lines);
    out
}

/// Why a scan stopped early, with the index of the offending character.
#[derive(Clone, Copy, Debug, PartialEq, Eq, Structural)]
pub enum ParseError {
    /// The name before `(` is not a known statement head.
    UnknownFunction(usize),
    /// A `)` came while no argument list was open.
    UnmatchedClose(usize),
}

/// The state of the scan after a prefix of the text.
pub struct ScanState {
    /// Statements completed so far, in source order.
    pub done: Seq<ValModel>,
    /// The statement under construction.
    pub current: ValModel,
    /// The token being accumulated.
    pub buffer: Seq<char>,
    /// Whether an argument list is open.
    pub in_list: bool,
    /// Set once the scan has stopped on malformed text.
    pub error: Option<ParseError>,
}

/// Nothing read yet: no statements, no open list, an empty buffer.
pub open spec fn initial_scan() -> ScanState {
    ScanState {
        done: Seq::empty(),
        current: empty_model(),
        buffer: Seq::empty(),
        in_list: false,
        error: None,
    }
}

/// The statement with the buffer added as one more token, if it holds any.
pub open spec fn flush(v: ValModel, buffer: Seq<char>) -> ValModel {
    if buffer.len() == 0 {
        v
    } else {
        ValModel { function: v.function, values: v.values.push(buffer) }
    }
}

/// Newline, tab and carriage return are skipped wherever they stand.
pub open spec fn is_skipped(c: char) -> bool {
    c == '\n' || c == '\t' || c == '\r'
}

/// One step of the scan: the character `c` at index `pos`.
pub open spec fn step(s: ScanState, c: char, pos: usize) -> ScanState {
    if s.error is Some {
        s
    } else if c == '(' && !s.in_list {
        match function_of(s.buffer) {
            Some(f) => ScanState {
                current: ValModel { function: f, values: s.current.values },
                buffer: Seq::empty(),
                in_list: true,
                ..s
            },
            None => ScanState { error: Some(ParseError::UnknownFunction(pos)), ..s },
        }
    } else if c == ')' {
        if !s.in_list {
            ScanState { error: Some(ParseError::UnmatchedClose(pos)), ..s }
        } else {
            ScanState {
                done: s.done.push(flush(s.current, s.buffer)),
                current: empty_model(),
                buffer: Seq::empty(),
                in_list: false,
                error: None,
            }
        }
    } else if is_skipped(c) {
        s
    } else if c == ' ' {
        ScanState { current: flush(s.current, s.buffer), buffer: Seq::empty(), ..s }
    } else {
        ScanState { buffer: s.buffer.push(c), ..s }
    }
}

/// The scan continued from state `s` over `text`, whose first character
/// stands at index `base` of the whole input.
pub open spec fn run(s: ScanState, text: Seq<char>, base: int) -> ScanState
    decreases text.len(),
{
    if text.len() == 0 {
        s
    } else {
        step(run(s, text.drop_last(), base), text.last(), (base + text.len() - 1) as usize)
    }
}

/// The scan of a whole text, one character after the other from the left.
pub open spec fn scan(text: Seq<char>) -> ScanState {
    run(initial_scan(), text, 0)
}

/// Once the scan has stopped, the rest of the text changes nothing.
pub proof fn lemma_scan_stops(text: Seq<char>, k: int)
    requires
        0 <= k <= text.len(),
        scan(text.take(k)).error is Some,
    ensures
        scan(text) == scan(text.take(k)),
    decreases text.len(),
{
    if text.len() == k {
        assert(text.take(k) == text);
    } else {
        assert(text.drop_last().take(k) == text.take(k));
        lemma_scan_stops(text.drop_last(), k);
    }
}

/// What a parse of `text` reports.
pub open spec fn scan_result(text: Seq<char>) -> Result<(), ParseError> {
    match scan(text).error {
        Some(e) => Err(e),
        None => Ok(()),
    }
}

/// Parses manifest text, appending each completed statement to `cmake_vals`
/// in source order. On malformed text it stops at the offending character:
/// the statements completed before it stay, and the error says where.
pub fn phrase_cmakelists_file(cmake_vals: &mut Vec<CMakeListsVal>, text: &str) -> (r: Result<
    (),
    ParseError,
>)
    ensures
        models(final(cmake_vals)@) == models(old(cmake_vals)@) + scan(text@).done,
        r == scan_result(text@),
{
    let ghost start = models(cmake_vals@);
    let n = text.unicode_len();
    let mut buffer = String::new();
    let mut current = CMakeListsVal::new();
    let mut in_list = false;
    let mut i: usize = 0;
    while i < n
        invariant
            n == text@.len(),
            i <= n,
            start == models(old(cmake_vals)@),
            scan(text@.take(i as int)).error is None,
            models(cmake_vals@) == start + scan(text@.take(i as int)).done,
            current@ == scan(text@.take(i as int)).current,
            buffer@ == scan(text@.take(i as int)).buffer,
            in_list == scan(text@.take(i as int)).in_list,
        decreases n - i,
    {
        let ghost before = scan(text@.take(i as int));
        proof {
            assert(text@.take(i + 1).drop_last() == text@.take(i as int));
        }
        let c = text.get_char(i);
        proof {
            assert(text@.take(i + 1).last() == c);
            assert(scan(text@.take(i + 1)) == step(before, c, i));
        }
        if c == '(' && !in_list {
            match CMakeListsFunction::from_name(buffer.as_str()) {
                Some(f) => {
                    current.function = f;
                    buffer = String::new();
                    in_list = true;
                },
                None => {
                    proof {
                        lemma_scan_stops(text@, i + 1);
                    }
                    return Err(ParseError::UnknownFunction(i));
                },
            }
        } else if c == ')' {
            if !in_list {
                proof {
                    lemma_scan_stops(text@, i + 1);
                }
                return Err(ParseError::UnmatchedClose(i));
            }
            if buffer.unicode_len() > 0 {
                current.values.push(buffer);
                buffer = String::new();
            }
            let finished = CMakeListsVal { function: current.function, values: current.values };
            assert(finished@.values =~= flush(before.current, before.buffer).values);
            let ghost earlier = models(cmake_vals@);
            cmake_vals.push(finished);
            assert(models(cmake_vals@) =~= earlier.push(finished@));
            current = CMakeListsVal::new();
            in_list = false;
        } else if c == '\n' || c == '\t' || c == '\r' {
        } else if c == ' ' {
            if buffer.unicode_len() > 0 {
                current.values.push(buffer);
                buffer = String::new();
            }
        } else {
            push_char(&mut buffer, c);
        }
        proof {
            let after = scan(text@.take(i + 1));
            assert(models(cmake_vals@) =~= start + after.done);
            assert(current@.values =~= after.current.values);
        }
        i = i + 1;
    }
    assert(text@.take(n as int) == text@);
    Ok(())
}

} // verus!
