//! The parse result: a dictionary of type names to ordered word lists,
//! plus an ordered sequence of template lines, together with the one-pass
//! parser that builds it from a sequence of input lines.

use vstd::prelude::*;
use vstd::pervasive::VecAdditionalExecFns;
use crate::model::{
    ErrorKind, MachineState, ParseError, ParsingMode, initial_state, run, spec_parse, step,
};

verus! {

/// The dictionary entries, abstracted: each entry is a type name together
/// with its word list, both as character sequences.
pub open spec fn entry_views(entries: Seq<(String, Vec<String>)>) -> Seq<
    (Seq<char>, Seq<Seq<char>>),
> {
    entries.map_values(|e: (String, Vec<String>)| (e.0@, e.1.deep_view()))
}

/// The map an entry sequence denotes: later entries win on equal keys.
pub open spec fn map_of(entries: Seq<(Seq<char>, Seq<Seq<char>>)>) -> Map<
    Seq<char>,
    Seq<Seq<char>>,
>
    decreases entries.len(),
{
    if entries.len() == 0 {
        Map::empty()
    } else {
        map_of(entries.drop_last()).insert(entries.last().0, entries.last().1)
    }
}

/// No two entries share a key.
pub open spec fn unique_keys(entries: Seq<(Seq<char>, Seq<Seq<char>>)>) -> bool {
    forall|i: int, j: int|
        0 <= i < j < entries.len() ==> entries[i].0 !== entries[j].0
}

proof fn lemma_map_of_contains(entries: Seq<(Seq<char>, Seq<Seq<char>>)>, k: Seq<char>)
    ensures
        map_of(entries).contains_key(k) <==> exists|i: int|
            0 <= i < entries.len() && entries[i].0 == k,
    decreases entries.len(),
{
    if entries.len() > 0 {
        lemma_map_of_contains(entries.drop_last(), k);
        if entries.last().0 == k {
            assert(entries[entries.len() - 1].0 == k);
        } else if map_of(entries).contains_key(k) {
            let i = choose|i: int| 0 <= i < entries.drop_last().len() && entries.drop_last()[i].0 == k;
            assert(entries[i].0 == k);
        } else if exists|i: int| 0 <= i < entries.len() && entries[i].0 == k {
            let i = choose|i: int| 0 <= i < entries.len() && entries[i].0 == k;
            assert(entries.drop_last()[i].0 == k);
        }
    }
}

proof fn lemma_map_of_index(entries: Seq<(Seq<char>, Seq<Seq<char>>)>, i: int)
    requires
        unique_keys(entries),
        0 <= i < entries.len(),
    ensures
        map_of(entries).contains_key(entries[i].0),
        map_of(entries)[entries[i].0] == entries[i].1,
    decreases entries.len(),
{
    if i == entries.len() - 1 {
    } else {
        assert(unique_keys(entries.drop_last())) by {
            assert(forall|p: int, q: int|
                0 <= p < q < entries.drop_last().len() ==> entries.drop_last()[p].0
                    !== entries.drop_last()[q].0);
        }
        lemma_map_of_index(entries.drop_last(), i);
        assert(entries.last().0 !== entries[i].0);
    }
}

proof fn lemma_map_of_update(entries: Seq<(Seq<char>, Seq<Seq<char>>)>, i: int, v: Seq<Seq<char>>)
    requires
        unique_keys(entries),
        0 <= i < entries.len(),
    ensures
        map_of(entries.update(i, (entries[i].0, v))) == map_of(entries).insert(entries[i].0, v),
    decreases entries.len(),
{
    let updated = entries.update(i, (entries[i].0, v));
    if i == entries.len() - 1 {
        assert(updated.drop_last() =~= entries.drop_last());
        assert(map_of(updated) =~= map_of(entries).insert(entries[i].0, v));
    } else {
        assert(unique_keys(entries.drop_last())) by {
            assert(forall|p: int, q: int|
                0 <= p < q < entries.drop_last().len() ==> entries.drop_last()[p].0
                    !== entries.drop_last()[q].0);
        }
        lemma_map_of_update(entries.drop_last(), i, v);
        assert(updated.drop_last() =~= entries.drop_last().update(i, (entries[i].0, v)));
        assert(updated.last() == entries.last());
        assert(entries.last().0 !== entries[i].0);
        assert(map_of(updated) =~= map_of(entries).insert(entries[i].0, v));
    }
}

proof fn lemma_map_of_push(entries: Seq<(Seq<char>, Seq<Seq<char>>)>, k: Seq<char>, v: Seq<Seq<char>>)
    ensures
        map_of(entries.push((k, v))) == map_of(entries).insert(k, v),
{
    assert(entries.push((k, v)).drop_last() =~= entries);
}

proof fn lemma_map_of_dom_len(entries: Seq<(Seq<char>, Seq<Seq<char>>)>)
    requires
        unique_keys(entries),
    ensures
        map_of(entries).dom().finite(),
        map_of(entries).dom().len() == entries.len(),
    decreases entries.len(),
{
    if entries.len() > 0 {
        assert(unique_keys(entries.drop_last())) by {
            assert(forall|p: int, q: int|
                0 <= p < q < entries.drop_last().len() ==> entries.drop_last()[p].0
                    !== entries.drop_last()[q].0);
        }
        lemma_map_of_dom_len(entries.drop_last());
        lemma_map_of_contains(entries.drop_last(), entries.last().0);
        assert(forall|i: int|
            0 <= i < entries.drop_last().len() ==> entries.drop_last()[i].0
                !== entries.last().0);
        assert(!map_of(entries.drop_last()).contains_key(entries.last().0));
        assert(map_of(entries).dom() =~= map_of(entries.drop_last()).dom().insert(
            entries.last().0,
        ));
    }
}

/// The parse result: type names mapped to their word lists, and the
/// template lines, both in file order.
#[derive(Debug)]
pub struct LangDef {
    dictionary: Vec<(String, Vec<String>)>,
    templates: Vec<String>,
}

impl LangDef {
    /// The dictionary this value denotes: type names to word lists.
    pub closed spec fn dict(self) -> Map<Seq<char>, Seq<Seq<char>>> {
        map_of(entry_views(self.dictionary@))
    }

    /// The template lines this value holds, in file order.
    pub closed spec fn templates_view(self) -> Seq<Seq<char>> {
        self.templates.deep_view()
    }

    /// Internal well-formedness: no type name is stored twice.
    pub closed spec fn wf(self) -> bool {
        unique_keys(entry_views(self.dictionary@))
    }

    /// An empty definition: no types, no templates.
    pub fn new() -> (r: LangDef)
        ensures
            r.wf(),
            r.dict() == Map::<Seq<char>, Seq<Seq<char>>>::empty(),
            r.templates_view() == Seq::<Seq<char>>::empty(),
    {
        let r = LangDef { dictionary: Vec::new(), templates: Vec::new() };
        proof {
            assert(entry_views(r.dictionary@) =~= Seq::<(Seq<char>, Seq<Seq<char>>)>::empty());
            assert(r.templates.deep_view() =~= Seq::<Seq<char>>::empty());
        }
        r
    }

    /// The position of a type name among the entries, if it is present.
    fn find_type(&self, name: &String) -> (r: Option<usize>)
        ensures
            match r {
                Some(i) => i < self.dictionary@.len() && entry_views(self.dictionary@)[i as int].0
                    == name@,
                None => forall|i: int|
                    0 <= i < self.dictionary@.len() ==> entry_views(self.dictionary@)[i].0
                        != name@,
            },
    {
        let n = self.dictionary.len();
        let mut j: usize = 0;
        while j < n
            invariant
                n == self.dictionary@.len(),
                0 <= j <= n,
                forall|t: int|
                    0 <= t < j ==> entry_views(self.dictionary@)[t].0 != name@,
            decreases n - j,
        {
            if self.dictionary[j].0 == *name {
                return Some(j);
            }
            j += 1;
        }
        None
    }

    /// Declare a type: its entry is created with an empty word list, and a
    /// re-declaration resets the word list of the existing entry to empty.
    pub fn add_type(&mut self, name: &str)
        requires
            old(self).wf(),
        ensures
            final(self).wf(),
            final(self).dict() == old(self).dict().insert(
                name@,
                Seq::<Seq<char>>::empty(),
            ),
            final(self).templates_view() == old(self).templates_view(),
    {
        let owned: String = name.to_owned();
        let found = self.find_type(&owned);
        let ghost before = entry_views(self.dictionary@);
        match found {
            Some(i) => {
                let fresh: Vec<String> = Vec::new();
                proof {
                    assert(fresh.deep_view() =~= Seq::<Seq<char>>::empty());
                }
                self.dictionary.set(i, (owned, fresh));
                proof {
                    assert(entry_views(self.dictionary@) =~= before.update(
                        i as int,
                        (before[i as int].0, Seq::<Seq<char>>::empty()),
                    ));
                    lemma_map_of_update(before, i as int, Seq::<Seq<char>>::empty());
                }
            },
            None => {
                let fresh: Vec<String> = Vec::new();
                proof {
                    assert(fresh.deep_view() =~= Seq::<Seq<char>>::empty());
                }
                self.dictionary.push((owned, fresh));
                proof {
                    assert(entry_views(self.dictionary@) =~= before.push(
                        (name@, Seq::<Seq<char>>::empty()),
                    ));
                    lemma_map_of_push(before, name@, Seq::<Seq<char>>::empty());
                }
            },
        }
    }

    /// Append a word to the list of a declared type; fail with
    /// `UnknownWordlist` and leave the value unchanged if the type is not
    /// declared.
    pub fn add_word_to_type(&mut self, name: &str, word: &str) -> (r: Result<(), ParseError>)
        requires
            old(self).wf(),
        ensures
            final(self).wf(),
            old(self).dict().contains_key(name@) ==> {
                &&& r is Ok
                &&& final(self).dict() == old(self).dict().insert(
                    name@,
                    old(self).dict()[name@].push(word@),
                )
                &&& final(self).templates_view() == old(self).templates_view()
            },
            !old(self).dict().contains_key(name@) ==> {
                &&& r matches Err(e) && e@ == ErrorKind::UnknownWordlist(name@)
                &&& *final(self) == *old(self)
            },
    {
        let owned: String = name.to_owned();
        let found = self.find_type(&owned);
        let ghost before = entry_views(self.dictionary@);
        proof {
            lemma_map_of_contains(before, name@);
        }
        match found {
            Some(i) => {
                proof {
                    lemma_map_of_index(before, i as int);
                }
                let ghost old_vec = self.dictionary@;
                let mut taken: (String, Vec<String>) = (String::new(), Vec::new());
                self.dictionary.set_and_swap(i, &mut taken);
                let (key_str, mut words) = taken;
                words.push(word.to_owned());
                proof {
                    assert(words.deep_view() =~= before[i as int].1.push(word@));
                }
                self.dictionary.set(i, (key_str, words));
                proof {
                    assert(self.dictionary@ =~= old_vec.update(
                        i as int,
                        self.dictionary@[i as int],
                    ));
                    assert(entry_views(self.dictionary@) =~= before.update(
                        i as int,
                        (before[i as int].0, before[i as int].1.push(word@)),
                    ));
                    lemma_map_of_update(
                        before,
                        i as int,
                        before[i as int].1.push(word@),
                    );
                }
                Ok(())
            },
            None => Err(ParseError::UnknownWordlist(owned)),
        }
    }

    /// Append a template line verbatim; never fails.
    pub fn add_template(&mut self, template: &str) -> (r: Result<(), ParseError>)
        ensures
            r is Ok,
            final(self).templates_view() == old(self).templates_view().push(template@),
            final(self).dict() == old(self).dict(),
            final(self).wf() == old(self).wf(),
    {
        let ghost before = self.templates.deep_view();
        self.templates.push(template.to_owned());
        proof {
            assert(self.templates.deep_view() =~= before.push(template@));
        }
        Ok(())
    }

    /// The template lines, in file order.
    pub fn templates(&self) -> (r: &Vec<String>)
        ensures
            r.deep_view() == self.templates_view(),
    {
        &self.templates
    }

    /// The word list of a declared type, or `None` if the type is unknown.
    pub fn words_for(&self, name: &str) -> (r: Option<&Vec<String>>)
        requires
            self.wf(),
        ensures
            match r {
                Some(ws) => self.dict().contains_key(name@) && ws.deep_view()
                    == self.dict()[name@],
                None => !self.dict().contains_key(name@),
            },
    {
        let owned: String = name.to_owned();
        let found = self.find_type(&owned);
        proof {
            lemma_map_of_contains(entry_views(self.dictionary@), name@);
        }
        match found {
            Some(i) => {
                proof {
                    lemma_map_of_index(entry_views(self.dictionary@), i as int);
                }
                Some(&self.dictionary[i].1)
            },
            None => None,
        }
    }

    /// How many types are declared.
    pub fn type_count(&self) -> (r: usize)
        requires
            self.wf(),
        ensures
            r == self.dict().dom().len(),
    {
        proof {
            lemma_map_of_dom_len(entry_views(self.dictionary@));
        }
        self.dictionary.len()
    }
}

/// The scanner state a partially built `LangDef` corresponds to.
pub open spec fn exec_state(
    mode: ParsingMode,
    list_name: Option<String>,
    def: LangDef,
) -> MachineState {
    MachineState {
        mode: mode,
        current_list_key: list_name.deep_view(),
        dictionary: def.dict(),
        templates: def.templates_view(),
    }
}

impl LangDef {
    /// Parse a whole file given as its sequence of lines (terminators
    /// already stripped), in one pass, stopping at the first offending
    /// line.
    pub fn from_lines(lines: &Vec<String>) -> (r: Result<LangDef, ParseError>)
        ensures
            match r {
                Ok(def) => {
                    &&& spec_parse(lines.deep_view()) is Ok
                    &&& def.wf()
                    &&& def.dict() == spec_parse(lines.deep_view())->Ok_0.dictionary
                    &&& def.templates_view() == spec_parse(lines.deep_view())->Ok_0.templates
                },
                Err(e) => {
                    &&& spec_parse(lines.deep_view()) is Err
                    &&& e@ == spec_parse(lines.deep_view())->Err_0
                },
            },
    {
        let types_hdr: String = "_types".to_owned();
        let templates_hdr: String = "_templates".to_owned();
        let lists_hdr: String = "_lists".to_owned();

        let mut mode = ParsingMode::Initial;
        let mut list_name: Option<String> = None;
        let mut def = LangDef::new();
        let ghost all = lines.deep_view();

        let n = lines.len();
        let mut i: usize = 0;
        proof {
            assert(exec_state(mode, list_name, def) == initial_state());
            assert(all.skip(0) =~= all);
        }
        while i < n
            invariant
                n == lines@.len(),
                0 <= i <= n,
                all == lines.deep_view(),
                types_hdr@ == crate::model::types_header(),
                templates_hdr@ == crate::model::templates_header(),
                lists_hdr@ == crate::model::lists_header(),
                def.wf(),
                run(exec_state(mode, list_name, def), all.skip(i as int)) == spec_parse(all),
            decreases n - i,
        {
            let ghost pre = exec_state(mode, list_name, def);
            let ghost rest = all.skip(i as int);
            let line: &String = &lines[i];
            proof {
                assert(all[i as int] == line@);
                assert(rest[0] == all[i as int]);
                assert(rest.skip(1) =~= all.skip(i as int + 1));
            }
            if line.as_str().is_empty() {
                i += 1;
                continue;
            }
            match mode {
                ParsingMode::Initial => {
                    if *line == types_hdr {
                        mode = ParsingMode::Types;
                    } else {
                        proof {
                            assert(step(pre, all[i as int]) == Err::<MachineState, ErrorKind>(
                                ErrorKind::MissingTypesHeader,
                            ));
                        }
                        return Err(ParseError::MissingTypesHeader);
                    }
                },
                ParsingMode::Types => {
                    if *line == templates_hdr {
                        mode = ParsingMode::Templates;
                    } else {
                        def.add_type(line.as_str());
                    }
                },
                ParsingMode::Templates => {
                    if *line == lists_hdr {
                        mode = ParsingMode::Lists;
                    } else {
                        let _added = def.add_template(line.as_str());
                    }
                },
                ParsingMode::Lists => {
                    if line.as_str().get_char(0) == ':' {
                        let len = line.as_str().unicode_len();
                        let rest_of_line = line.as_str().substring_char(1, len);
                        list_name = Some(rest_of_line.to_owned());
                    } else {
                        match &list_name {
                            None => {
                                proof {
                                    assert(step(pre, all[i as int]) == Err::<
                                        MachineState,
                                        ErrorKind,
                                    >(ErrorKind::ListNotStarted));
                                }
                                return Err(ParseError::ListNotStarted);
                            },
                            Some(key) => {
                                match def.add_word_to_type(key.as_str(), line.as_str()) {
                                    Ok(()) => {},
                                    Err(e) => {
                                        proof {
                                            assert(step(pre, all[i as int]) == Err::<
                                                MachineState,
                                                ErrorKind,
                                            >(ErrorKind::UnknownWordlist(key@)));
                                        }
                                        return Err(e);
                                    },
                                }
                            },
                        }
                    }
                },
            }
            proof {
                assert(step(pre, all[i as int]) == Ok::<MachineState, ErrorKind>(
                    exec_state(mode, list_name, def),
                ));
            }
            i += 1;
        }
        proof {
            assert(all.skip(n as int) =~= Seq::<Seq<char>>::empty());
        }
        Ok(def)
    }
}

} // verus!
