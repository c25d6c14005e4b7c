//! Laws of the format, stated directly over the input lines and proved
//! against the scanner: when parsing succeeds, which keys the dictionary
//! ends up with, and that templates and word lists keep file order.

use vstd::prelude::*;
use crate::model::{
    ErrorKind, MachineState, ParsingMode, initial_state, line_is_blank, line_opens_list,
    list_key_of, lists_header, run, spec_parse, step, templates_header, types_header,
};
use crate::lang_def::LangDef;

verus! {

/// Whether the scanner accepts the given lines when it stands in `mode`,
/// with `current` the list opened last and `declared` the type names seen
/// so far. Stated over the shape of the lines alone: a blank line is
/// skipped; before any section only the `_types` header is accepted; and
/// a word line is accepted exactly when a list was opened by a `:name`
/// line whose name is among the declared types.
pub open spec fn accepted_from(
    mode: ParsingMode,
    current: Option<Seq<char>>,
    declared: Set<Seq<char>>,
    lines: Seq<Seq<char>>,
) -> bool
    decreases lines.len(),
{
    if lines.len() == 0 {
        true
    } else {
        let line = lines[0];
        let rest = lines.skip(1);
        if line_is_blank(line) {
            accepted_from(mode, current, declared, rest)
        } else {
            match mode {
                ParsingMode::Initial => line == types_header() && accepted_from(
                    ParsingMode::Types,
                    current,
                    declared,
                    rest,
                ),
                ParsingMode::Types => {
                    if line == templates_header() {
                        accepted_from(ParsingMode::Templates, current, declared, rest)
                    } else {
                        accepted_from(ParsingMode::Types, current, declared.insert(line), rest)
                    }
                },
                ParsingMode::Templates => {
                    if line == lists_header() {
                        accepted_from(ParsingMode::Lists, current, declared, rest)
                    } else {
                        accepted_from(ParsingMode::Templates, current, declared, rest)
                    }
                },
                ParsingMode::Lists => {
                    if line_opens_list(line) {
                        accepted_from(
                            ParsingMode::Lists,
                            Some(list_key_of(line)),
                            declared,
                            rest,
                        )
                    } else {
                        &&& current is Some
                        &&& declared.contains(current->0)
                        &&& accepted_from(ParsingMode::Lists, current, declared, rest)
                    }
                },
            }
        }
    }
}

/// The inputs on which a whole parse succeeds: the first non-blank line
/// must be the `_types` header, the section headers may only appear in
/// their fixed order, and every word line must follow a `:name` line
/// whose name was declared in the types section.
pub open spec fn input_accepted(lines: Seq<Seq<char>>) -> bool {
    accepted_from(ParsingMode::Initial, None, Set::empty(), lines)
}

proof fn lemma_run_ok_iff_accepted(state: MachineState, lines: Seq<Seq<char>>)
    ensures
        run(state, lines) is Ok <==> accepted_from(
            state.mode,
            state.current_list_key,
            state.dictionary.dom(),
            lines,
        ),
    decreases lines.len(),
{
    if lines.len() == 0 {
    } else {
        let line = lines[0];
        let rest = lines.skip(1);
        match step(state, line) {
            Ok(next) => {
                lemma_run_ok_iff_accepted(next, rest);
                if !line_is_blank(line) && state.mode is Types && line != templates_header() {
                    assert(next.dictionary.dom() =~= state.dictionary.dom().insert(line));
                }
                if !line_is_blank(line) && state.mode is Lists && !line_opens_list(line) {
                    assert(next.dictionary.dom() =~= state.dictionary.dom());
                }
            },
            Err(_) => {},
        }
    }
}

/// Parsing succeeds exactly on the accepted inputs: the success or
/// failure of a parse depends only on the shape of the lines, never on
/// the words or templates collected along the way.
pub proof fn lemma_parse_succeeds_iff_accepted(lines: Seq<Seq<char>>)
    ensures
        spec_parse(lines) is Ok <==> input_accepted(lines),
{
    lemma_run_ok_iff_accepted(initial_state(), lines);
    assert(initial_state().dictionary.dom() =~= Set::<Seq<char>>::empty());
}

proof fn lemma_accepted_first_nonblank(
    current: Option<Seq<char>>,
    declared: Set<Seq<char>>,
    lines: Seq<Seq<char>>,
    i: int,
)
    requires
        accepted_from(ParsingMode::Initial, current, declared, lines),
        0 <= i < lines.len(),
        !line_is_blank(lines[i]),
        forall|j: int| 0 <= j < i ==> line_is_blank(#[trigger] lines[j]),
    ensures
        lines[i] == types_header(),
    decreases i,
{
    if i > 0 {
        lemma_accepted_first_nonblank(current, declared, lines.skip(1), i - 1);
    }
}

/// A corollary in the words of the format: whenever parsing succeeds and
/// the file has a non-blank line at all, its first non-blank line is the
/// `_types` header.
pub proof fn lemma_first_nonblank_is_types_header(lines: Seq<Seq<char>>, i: int)
    requires
        spec_parse(lines) is Ok,
        0 <= i < lines.len(),
        !line_is_blank(lines[i]),
        forall|j: int| 0 <= j < i ==> line_is_blank(#[trigger] lines[j]),
    ensures
        lines[i] == types_header(),
{
    lemma_parse_succeeds_iff_accepted(lines);
    lemma_accepted_first_nonblank(None, Set::empty(), lines, i);
}

/// The type names declared while the scanner processes `lines` from
/// `mode`: the non-blank, non-header lines of the types section.
pub open spec fn declared_after(mode: ParsingMode, lines: Seq<Seq<char>>) -> Set<Seq<char>>
    decreases lines.len(),
{
    if lines.len() == 0 {
        Set::empty()
    } else {
        let line = lines[0];
        let rest = lines.skip(1);
        if line_is_blank(line) {
            declared_after(mode, rest)
        } else {
            match mode {
                ParsingMode::Initial => {
                    if line == types_header() {
                        declared_after(ParsingMode::Types, rest)
                    } else {
                        Set::empty()
                    }
                },
                ParsingMode::Types => {
                    if line == templates_header() {
                        declared_after(ParsingMode::Templates, rest)
                    } else {
                        declared_after(ParsingMode::Types, rest).insert(line)
                    }
                },
                ParsingMode::Templates => {
                    if line == lists_header() {
                        declared_after(ParsingMode::Lists, rest)
                    } else {
                        declared_after(ParsingMode::Templates, rest)
                    }
                },
                ParsingMode::Lists => Set::empty(),
            }
        }
    }
}

/// The type names the types section of `lines` declares.
pub open spec fn declared_types(lines: Seq<Seq<char>>) -> Set<Seq<char>> {
    declared_after(ParsingMode::Initial, lines)
}

/// The template lines collected while the scanner processes `lines` from
/// `mode`, in file order.
pub open spec fn templates_after(mode: ParsingMode, lines: Seq<Seq<char>>) -> Seq<Seq<char>>
    decreases lines.len(),
{
    if lines.len() == 0 {
        Seq::empty()
    } else {
        let line = lines[0];
        let rest = lines.skip(1);
        if line_is_blank(line) {
            templates_after(mode, rest)
        } else {
            match mode {
                ParsingMode::Initial => {
                    if line == types_header() {
                        templates_after(ParsingMode::Types, rest)
                    } else {
                        Seq::empty()
                    }
                },
                ParsingMode::Types => {
                    if line == templates_header() {
                        templates_after(ParsingMode::Templates, rest)
                    } else {
                        templates_after(ParsingMode::Types, rest)
                    }
                },
                ParsingMode::Templates => {
                    if line == lists_header() {
                        Seq::empty()
                    } else {
                        seq![line] + templates_after(ParsingMode::Templates, rest)
                    }
                },
                ParsingMode::Lists => Seq::empty(),
            }
        }
    }
}

/// The template lines of `lines`, in file order.
pub open spec fn templates_in(lines: Seq<Seq<char>>) -> Seq<Seq<char>> {
    templates_after(ParsingMode::Initial, lines)
}

/// The word lines assigned to the type `k` while the scanner processes
/// `lines` from `mode` with `current` the list opened last, in file
/// order.
pub open spec fn words_after(
    mode: ParsingMode,
    current: Option<Seq<char>>,
    k: Seq<char>,
    lines: Seq<Seq<char>>,
) -> Seq<Seq<char>>
    decreases lines.len(),
{
    if lines.len() == 0 {
        Seq::empty()
    } else {
        let line = lines[0];
        let rest = lines.skip(1);
        if line_is_blank(line) {
            words_after(mode, current, k, rest)
        } else {
            match mode {
                ParsingMode::Initial => {
                    if line == types_header() {
                        words_after(ParsingMode::Types, current, k, rest)
                    } else {
                        Seq::empty()
                    }
                },
                ParsingMode::Types => {
                    if line == templates_header() {
                        words_after(ParsingMode::Templates, current, k, rest)
                    } else {
                        words_after(ParsingMode::Types, current, k, rest)
                    }
                },
                ParsingMode::Templates => {
                    if line == lists_header() {
                        words_after(ParsingMode::Lists, current, k, rest)
                    } else {
                        words_after(ParsingMode::Templates, current, k, rest)
                    }
                },
                ParsingMode::Lists => {
                    if line_opens_list(line) {
                        words_after(ParsingMode::Lists, Some(list_key_of(line)), k, rest)
                    } else if current == Some(k) {
                        seq![line] + words_after(ParsingMode::Lists, current, k, rest)
                    } else {
                        words_after(ParsingMode::Lists, current, k, rest)
                    }
                },
            }
        }
    }
}

/// The word lines of `lines` assigned to the type `k`, in file order.
pub open spec fn words_in(lines: Seq<Seq<char>>, k: Seq<char>) -> Seq<Seq<char>> {
    words_after(ParsingMode::Initial, None, k, lines)
}

/// The words a key starts from, as seen from an intermediate state: a
/// key that is (re-)declared along the way starts empty, otherwise it
/// keeps what the state already holds for it.
pub open spec fn base_words(state: MachineState, lines: Seq<Seq<char>>, k: Seq<char>) -> Seq<
    Seq<char>,
> {
    if declared_after(state.mode, lines).contains(k) {
        Seq::empty()
    } else if state.dictionary.contains_key(k) {
        state.dictionary[k]
    } else {
        Seq::empty()
    }
}

proof fn lemma_declared_after_lists(lines: Seq<Seq<char>>)
    ensures
        declared_after(ParsingMode::Lists, lines) =~= Set::<Seq<char>>::empty(),
    decreases lines.len(),
{
    if lines.len() > 0 && line_is_blank(lines[0]) {
        lemma_declared_after_lists(lines.skip(1));
    }
}

proof fn lemma_templates_after_lists(lines: Seq<Seq<char>>)
    ensures
        templates_after(ParsingMode::Lists, lines) =~= Seq::<Seq<char>>::empty(),
    decreases lines.len(),
{
    if lines.len() > 0 && line_is_blank(lines[0]) {
        lemma_templates_after_lists(lines.skip(1));
    }
}

proof fn lemma_run_content(state: MachineState, lines: Seq<Seq<char>>, out: MachineState)
    requires
        run(state, lines) == Ok::<MachineState, ErrorKind>(out),
    ensures
        out.templates == state.templates + templates_after(state.mode, lines),
        out.dictionary.dom() == state.dictionary.dom() + declared_after(state.mode, lines),
        forall|k: Seq<char>| #[trigger]
            out.dictionary.contains_key(k) ==> out.dictionary[k] == base_words(state, lines, k)
                + words_after(state.mode, state.current_list_key, k, lines),
    decreases lines.len(),
{
    if lines.len() == 0 {
        assert(out == state);
        assert(out.templates =~= state.templates + templates_after(state.mode, lines));
        assert(out.dictionary.dom() =~= state.dictionary.dom() + declared_after(
            state.mode,
            lines,
        ));
        assert forall|k: Seq<char>| #[trigger]
            out.dictionary.contains_key(k) implies out.dictionary[k] == base_words(
            state,
            lines,
            k,
        ) + words_after(state.mode, state.current_list_key, k, lines) by {
            assert(out.dictionary[k] =~= base_words(state, lines, k) + words_after(
                state.mode,
                state.current_list_key,
                k,
                lines,
            ));
        }
    } else {
        let line = lines[0];
        let rest = lines.skip(1);
        let next = step(state, line)->Ok_0;
        assert(run(state, lines) == run(next, rest));
        lemma_run_content(next, rest, out);
        if line_is_blank(line) {
            assert(next == state);
            assert(out.templates =~= state.templates + templates_after(state.mode, lines));
        } else {
            match state.mode {
                ParsingMode::Initial => {
                    assert(line == types_header());
                    assert(next.mode is Types && next.dictionary == state.dictionary
                        && next.templates == state.templates && next.current_list_key
                        == state.current_list_key);
                    assert(out.templates =~= state.templates + templates_after(state.mode, lines));
                },
                ParsingMode::Types => {
                    assert(out.templates =~= state.templates + templates_after(state.mode, lines));
                    if line == templates_header() {
                    } else {
                        assert(next.dictionary == state.dictionary.insert(
                            line,
                            Seq::<Seq<char>>::empty(),
                        ));
                        assert(next.dictionary.dom() =~= state.dictionary.dom().insert(line));
                        assert(state.dictionary.dom().insert(line) + declared_after(
                            ParsingMode::Types,
                            rest,
                        ) =~= state.dictionary.dom() + declared_after(
                            ParsingMode::Types,
                            rest,
                        ).insert(line));
                        assert forall|k: Seq<char>| #[trigger]
                            out.dictionary.contains_key(k) implies out.dictionary[k]
                            == base_words(state, lines, k) + words_after(
                            state.mode,
                            state.current_list_key,
                            k,
                            lines,
                        ) by {
                            if k == line {
                                assert(declared_after(state.mode, lines).contains(k));
                                if !declared_after(ParsingMode::Types, rest).contains(k) {
                                    assert(base_words(next, rest, k) == next.dictionary[k]);
                                }
                                assert(base_words(next, rest, k) =~= Seq::<Seq<char>>::empty());
                            } else {
                                assert(base_words(next, rest, k) == base_words(state, lines, k));
                            }
                        }
                    }
                },
                ParsingMode::Templates => {
                    if line == lists_header() {
                        lemma_templates_after_lists(rest);
                        assert(out.templates =~= state.templates + templates_after(state.mode, lines));
                    } else {
                        assert(next.templates == state.templates.push(line));
                        assert(state.templates.push(line) + templates_after(
                            ParsingMode::Templates,
                            rest,
                        ) =~= state.templates + (seq![line] + templates_after(
                            ParsingMode::Templates,
                            rest,
                        )));
                    }
                },
                ParsingMode::Lists => {
                    lemma_declared_after_lists(lines);
                    lemma_declared_after_lists(rest);
                    lemma_templates_after_lists(lines);
                    lemma_templates_after_lists(rest);
                    assert(out.templates =~= state.templates + templates_after(
                        state.mode,
                        lines,
                    ));
                    if line_opens_list(line) {
                        assert(out.dictionary.dom() =~= state.dictionary.dom()
                            + declared_after(state.mode, lines));
                    } else {
                        let ck = state.current_list_key->0;
                        assert(state.dictionary.contains_key(ck));
                        assert(next.dictionary == state.dictionary.insert(
                            ck,
                            state.dictionary[ck].push(line),
                        ));
                        assert(next.dictionary.dom() =~= state.dictionary.dom());
                        assert(out.dictionary.dom() =~= state.dictionary.dom()
                            + declared_after(state.mode, lines));
                        assert forall|k: Seq<char>| #[trigger]
                            out.dictionary.contains_key(k) implies out.dictionary[k]
                            == base_words(state, lines, k) + words_after(
                            state.mode,
                            state.current_list_key,
                            k,
                            lines,
                        ) by {
                            if k == ck {
                                assert(state.current_list_key == Some(k));
                                assert(base_words(next, rest, k) == next.dictionary[k]);
                                assert(base_words(state, lines, k) == state.dictionary[k]);
                                assert(state.dictionary[k].push(line) + words_after(
                                    ParsingMode::Lists,
                                    state.current_list_key,
                                    k,
                                    rest,
                                ) =~= state.dictionary[k] + (seq![line] + words_after(
                                    ParsingMode::Lists,
                                    state.current_list_key,
                                    k,
                                    rest,
                                )));
                            } else {
                                assert(state.current_list_key != Some(k));
                                assert(base_words(next, rest, k) == base_words(state, lines, k));
                            }
                        }
                    }
                },
            }
        }
    }
}

/// Round trip of the types section: when parsing succeeds, the keys of
/// the dictionary are exactly the type names declared in the types
/// section, and a type to which no word line was ever assigned keeps an
/// empty word list.
pub proof fn lemma_types_round_trip(lines: Seq<Seq<char>>, out: MachineState)
    requires
        spec_parse(lines) == Ok::<MachineState, ErrorKind>(out),
    ensures
        out.dictionary.dom() == declared_types(lines),
        forall|k: Seq<char>| #[trigger]
            out.dictionary.contains_key(k) && words_in(lines, k).len() == 0
                ==> out.dictionary[k] == Seq::<Seq<char>>::empty(),
{
    lemma_order_preserved(lines, out);
    lemma_run_content(initial_state(), lines, out);
    assert(out.dictionary.dom() =~= declared_types(lines));
    assert forall|k: Seq<char>| #[trigger]
        out.dictionary.contains_key(k) && words_in(lines, k).len() == 0
            implies out.dictionary[k] == Seq::<Seq<char>>::empty() by {
        assert(out.dictionary[k] =~= Seq::<Seq<char>>::empty());
    }
}

/// Order preservation: when parsing succeeds, the templates are exactly
/// the non-header lines of the templates section in file order, and the
/// word list of every type holds exactly the word lines assigned to it,
/// in file order.
pub proof fn lemma_order_preserved(lines: Seq<Seq<char>>, out: MachineState)
    requires
        spec_parse(lines) == Ok::<MachineState, ErrorKind>(out),
    ensures
        out.templates == templates_in(lines),
        forall|k: Seq<char>| #[trigger] out.dictionary.contains_key(k) ==> out.dictionary[k]
            == words_in(lines, k),
{
    lemma_run_content(initial_state(), lines, out);
    assert(out.templates =~= templates_in(lines));
    assert(out.dictionary.dom() =~= declared_types(lines));
    assert forall|k: Seq<char>| #[trigger] out.dictionary.contains_key(k) implies out.dictionary[k]
        == words_in(lines, k) by {
        assert(declared_types(lines).contains(k));
        assert(base_words(initial_state(), lines, k) =~= Seq::<Seq<char>>::empty());
        assert(Seq::<Seq<char>>::empty() + words_in(lines, k) =~= words_in(lines, k));
    }
}

/// Idempotence: parsing is a function of the input lines alone, so two
/// parses of the same lines yield structurally identical results.
pub proof fn lemma_parse_idempotent(lines: Seq<Seq<char>>, first: LangDef, second: LangDef)
    requires
        spec_parse(lines) is Ok,
        first.dict() == spec_parse(lines)->Ok_0.dictionary,
        first.templates_view() == spec_parse(lines)->Ok_0.templates,
        second.dict() == spec_parse(lines)->Ok_0.dictionary,
        second.templates_view() == spec_parse(lines)->Ok_0.templates,
    ensures
        first.dict() == second.dict(),
        first.templates_view() == second.templates_view(),
{
}

} // verus!
