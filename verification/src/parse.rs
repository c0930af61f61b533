//! Reading the input lines into a mapping, with a warning for each line
//! that is skipped or that overwrites an earlier one.

use crate::ident::{uuid_from_str, SecretId};
use crate::line::{id_part, name_part, split_line};
use crate::mapping::SecretMapping;
use crate::warning::{warning_views, Warning, WarningView};
use vstd::prelude::*;

verus! {

/// What has been read so far: the mapping and the warnings in the order in
/// which they were given.
pub struct ParseState {
    pub mapping: Map<u128, Seq<char>>,
    pub warnings: Seq<WarningView>,
}

/// The state before any line was read.
pub open spec fn initial_state() -> ParseState {
    ParseState { mapping: Map::empty(), warnings: Seq::empty() }
}

/// The state after one more line, of which `parsed` is what became of its
/// identifier text `text`, and `name` its name. A text that is no
/// identifier adds a warning and nothing else. An identifier gets the
/// name, and a warning where it had one: the later name wins.
pub open spec fn recorded(
    state: ParseState,
    parsed: Result<u128, Seq<char>>,
    text: Seq<char>,
    name: Seq<char>,
) -> ParseState {
    match parsed {
        Err(reason) => ParseState {
            mapping: state.mapping,
            warnings: state.warnings.push(WarningView::InvalidIdentifier { text, reason }),
        },
        Ok(id) => ParseState {
            mapping: state.mapping.insert(id, name),
            warnings: if state.mapping.contains_key(id) {
                state.warnings.push(
                    WarningView::DuplicateIdentifier {
                        id,
                        previous: state.mapping[id],
                        replacement: name,
                    },
                )
            } else {
                state.warnings
            },
        },
    }
}

/// The state after one more line.
pub open spec fn after_line(state: ParseState, line: Seq<char>) -> ParseState {
    recorded(state, uuid_from_str(id_part(line)), id_part(line), name_part(line))
}

/// The state after all of `lines`, read from the first to the last.
pub open spec fn parsed_lines(lines: Seq<Seq<char>>) -> ParseState
    decreases lines.len(),
{
    if lines.len() == 0 {
        initial_state()
    } else {
        after_line(parsed_lines(lines.drop_last()), lines.last())
    }
}

/// The lines of an input, each as its characters.
pub open spec fn line_views(lines: Seq<String>) -> Seq<Seq<char>> {
    lines.map_values(|line: String| line@)
}

/// What became of an identifier text, over plain values.
pub open spec fn parsed_view(parsed: Result<SecretId, String>) -> Result<u128, Seq<char>> {
    match parsed {
        Ok(id) => Ok(id.value),
        Err(reason) => Err(reason@),
    }
}

/// The identifier of a line, where its identifier text is one.
pub open spec fn line_id(line: Seq<char>) -> Option<u128> {
    match uuid_from_str(id_part(line)) {
        Ok(id) => Some(id),
        Err(_) => None,
    }
}

/// The warning for a line whose identifier text is no identifier.
pub open spec fn invalid_warning(line: Seq<char>) -> WarningView
    recommends
        line_id(line) is None,
{
    WarningView::InvalidIdentifier {
        text: id_part(line),
        reason: uuid_from_str(id_part(line))->Err_0,
    }
}

/// A single valid line gives a mapping with exactly one entry, from the
/// line's identifier to its trimmed name, and no warning.
pub proof fn lemma_single_line(line: Seq<char>)
    requires
        line_id(line) is Some,
    ensures
        parsed_lines(seq![line]).mapping == Map::<u128, Seq<char>>::empty().insert(
            line_id(line)->0,
            name_part(line),
        ),
        parsed_lines(seq![line]).mapping.dom() == set![line_id(line)->0],
        parsed_lines(seq![line]).mapping.len() == 1,
        parsed_lines(seq![line]).warnings == Seq::<WarningView>::empty(),
{
    let lines = seq![line];
    assert(lines.drop_last() =~= Seq::<Seq<char>>::empty());
    assert(parsed_lines(lines.drop_last()) == initial_state());
    assert(lines.last() == line);
    let mapping = parsed_lines(lines).mapping;
    assert(mapping.dom() =~= set![line_id(line)->0]);
}

/// Two lines with one identifier give a mapping with exactly one entry,
/// which holds the second line's name, and exactly one warning, which
/// reports the duplicate with both names.
pub proof fn lemma_second_name_wins(first: Seq<char>, second: Seq<char>)
    requires
        line_id(first) is Some,
        line_id(second) == line_id(first),
    ensures
        parsed_lines(seq![first, second]).mapping == Map::<u128, Seq<char>>::empty().insert(
            line_id(first)->0,
            name_part(second),
        ),
        parsed_lines(seq![first, second]).mapping.len() == 1,
        parsed_lines(seq![first, second]).warnings == seq![
            WarningView::DuplicateIdentifier {
                id: line_id(first)->0,
                previous: name_part(first),
                replacement: name_part(second),
            },
        ],
{
    let lines = seq![first, second];
    let id = line_id(first)->0;
    assert(lines.drop_last() =~= seq![first]);
    assert(lines.last() == second);
    lemma_single_line(first);
    let after = parsed_lines(lines);
    assert(after.mapping =~= Map::<u128, Seq<char>>::empty().insert(id, name_part(second)));
    assert(after.mapping.dom() =~= set![id]);
    assert(after.warnings =~= seq![
        WarningView::DuplicateIdentifier {
            id,
            previous: name_part(first),
            replacement: name_part(second),
        },
    ]);
}

/// Reading more lines never takes a warning back.
pub proof fn lemma_warnings_grow(before: Seq<Seq<char>>, after: Seq<Seq<char>>)
    ensures
        parsed_lines(before).warnings.len() <= parsed_lines(before + after).warnings.len(),
    decreases after.len(),
{
    if after.len() == 0 {
        assert(before + after =~= before);
    } else {
        assert((before + after).drop_last() =~= before + after.drop_last());
        lemma_warnings_grow(before, after.drop_last());
    }
}

/// A line whose identifier text is no identifier adds no entry and exactly
/// one warning, at its place among the warnings; what the other lines give
/// is the same as without it.
pub proof fn lemma_invalid_line_skipped(
    before: Seq<Seq<char>>,
    line: Seq<char>,
    after: Seq<Seq<char>>,
)
    requires
        line_id(line) is None,
    ensures
        parsed_lines(before.push(line) + after).mapping == parsed_lines(before + after).mapping,
        parsed_lines(before).warnings.len() <= parsed_lines(before + after).warnings.len(),
        parsed_lines(before.push(line) + after).warnings == parsed_lines(
            before + after,
        ).warnings.insert(parsed_lines(before).warnings.len() as int, invalid_warning(line)),
    decreases after.len(),
{
    let at = parsed_lines(before).warnings.len() as int;
    let with = before.push(line) + after;
    let without = before + after;
    lemma_warnings_grow(before, after);
    if after.len() == 0 {
        assert(with =~= before.push(line));
        assert(without =~= before);
        assert(with.drop_last() =~= before);
        assert(parsed_lines(with).warnings =~= parsed_lines(without).warnings.insert(
            at,
            invalid_warning(line),
        ));
    } else {
        assert(with.drop_last() =~= before.push(line) + after.drop_last());
        assert(without.drop_last() =~= before + after.drop_last());
        assert(with.last() == after.last());
        assert(without.last() == after.last());
        lemma_invalid_line_skipped(before, line, after.drop_last());
        assert(parsed_lines(with).warnings =~= parsed_lines(without).warnings.insert(
            at,
            invalid_warning(line),
        ));
    }
}

/// The last line that names an identifier decides its name.
pub proof fn lemma_last_name_wins(lines: Seq<Seq<char>>, at: int)
    requires
        0 <= at < lines.len(),
        line_id(lines[at]) is Some,
        forall|later: int| at < later < lines.len() ==> line_id(lines[later]) != line_id(lines[at]),
    ensures
        parsed_lines(lines).mapping.contains_key(line_id(lines[at])->0),
        parsed_lines(lines).mapping[line_id(lines[at])->0] == name_part(lines[at]),
    decreases lines.len(),
{
    if at < lines.len() - 1 {
        let init = lines.drop_last();
        assert(init[at] == lines[at]);
        assert forall|later: int| at < later < init.len() implies line_id(init[later]) != line_id(
            init[at],
        ) by {
            assert(init[later] == lines[later]);
        }
        lemma_last_name_wins(init, at);
        assert(line_id(lines.last()) != line_id(lines[at]));
    }
}

/// The mapping holds exactly the identifiers that some line names.
pub proof fn lemma_mapping_domain(lines: Seq<Seq<char>>, id: u128)
    ensures
        parsed_lines(lines).mapping.contains_key(id) <==> exists|at: int|
            0 <= at < lines.len() && line_id(lines[at]) == Some(id),
    decreases lines.len(),
{
    if lines.len() > 0 {
        let init = lines.drop_last();
        lemma_mapping_domain(init, id);
        if parsed_lines(lines).mapping.contains_key(id) {
            if line_id(lines.last()) == Some(id) {
                assert(line_id(lines[lines.len() - 1]) == Some(id));
            } else {
                let at = choose|at: int| 0 <= at < init.len() && line_id(init[at]) == Some(id);
                assert(line_id(lines[at]) == Some(id));
            }
        }
        if exists|at: int| 0 <= at < lines.len() && line_id(lines[at]) == Some(id) {
            let at = choose|at: int| 0 <= at < lines.len() && line_id(lines[at]) == Some(id);
            if at < init.len() {
                assert(line_id(init[at]) == Some(id));
            }
        }
    }
}

/// Each line gives at most one warning.
pub proof fn lemma_warnings_bound(lines: Seq<Seq<char>>)
    ensures
        parsed_lines(lines).warnings.len() <= lines.len(),
    decreases lines.len(),
{
    if lines.len() > 0 {
        lemma_warnings_bound(lines.drop_last());
    }
}

/// The outcome of reading the input: the mapping, and the warnings to
/// report.
pub struct ParsedInput {
    pub mapping: SecretMapping,
    pub warnings: Vec<Warning>,
}

impl View for ParsedInput {
    type V = ParseState;

    open spec fn view(&self) -> ParseState {
        ParseState { mapping: self.mapping@, warnings: warning_views(self.warnings@) }
    }
}

impl ParsedInput {
    /// The outcome of reading no line, with room for `capacity` entries.
    pub fn with_capacity(capacity: usize) -> (res: ParsedInput)
        ensures
            res@ == initial_state(),
    {
        let res = ParsedInput {
            mapping: SecretMapping::with_capacity(capacity),
            warnings: Vec::new(),
        };
        assert(warning_views(res.warnings@) =~= Seq::<WarningView>::empty());
        res
    }

    /// Takes in one line, given as what became of its identifier text
    /// `text`, and its name.
    pub fn record(&mut self, parsed: Result<SecretId, String>, text: String, name: String)
        ensures
            final(self)@ == recorded(old(self)@, parsed_view(parsed), text@, name@),
    {
        match parsed {
            Err(reason) => {
                let warning = Warning::InvalidIdentifier { text, reason };
                self.warnings.push(warning);
                assert(warning_views(self.warnings@) =~= warning_views(old(self).warnings@).push(
                    warning@,
                ));
            },
            Ok(id) => {
                let replacement = name.clone();
                match self.mapping.insert(id, name) {
                    Some(previous) => {
                        let warning = Warning::DuplicateIdentifier { id, previous, replacement };
                        self.warnings.push(warning);
                        assert(warning_views(self.warnings@) =~= warning_views(
                            old(self).warnings@,
                        ).push(warning@));
                    },
                    None => {},
                }
            },
        }
    }
}

/// Reads the input lines, each of the form `identifier > name`, into a
/// mapping. No line fails the whole: one whose identifier text is no
/// identifier is skipped with a warning, and one whose identifier was
/// named before overwrites the earlier name with a warning.
pub fn parse_secret_input(secret_lines: Vec<String>) -> (res: ParsedInput)
    ensures
        res@ == parsed_lines(line_views(secret_lines@)),
{
    let mut res = ParsedInput::with_capacity(secret_lines.len());
    let ghost lines = line_views(secret_lines@);
    for i in 0..secret_lines.len()
        invariant
            lines == line_views(secret_lines@),
            res@ == parsed_lines(lines.take(i as int)),
    {
        let (text, name) = split_line(secret_lines[i].as_str());
        let parsed = SecretId::parse(text.as_str());
        proof {
            assert(lines.take(i + 1).drop_last() =~= lines.take(i as int));
            assert(lines.take(i + 1).last() == secret_lines@[i as int]@);
        }
        res.record(parsed, text, name);
    }
    assert(lines.take(secret_lines.len() as int) =~= lines);
    res
}

} // verus!
