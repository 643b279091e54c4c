use vstd::prelude::*;
use vstd::string::StringExecFns;
use crate::config::{copy_string, TriggerConfig};
use crate::keys::{
    has_validity, macro_error_message, macro_error_text, macro_verdict, LocalKey, MacroError, Shortcuts,
};
use crate::migration::text_view;
use crate::text::{
    chars_of, collapse_whitespace_chars, collapsed, default_grammar, default_grammar_of, is_blank,
    is_blank_str, matching_key, matching_key_of, occurs_at, slice_chars, string_of, trim_str, trimmed,
};
use crate::toml_tree::str_eq;

verus! {

/// The action bound to `name` by the last entry that names it.
pub open spec fn last_bound<F>(entries: Seq<(String, F)>, name: Seq<char>) -> Option<F>
    decreases entries.len(),
{
    if entries.len() == 0 {
        None
    } else if entries.last().0@ == name {
        Some(entries.last().1)
    } else {
        last_bound(entries.drop_last(), name)
    }
}

/// Whether no two entries carry the same name.
pub open spec fn distinct_names<F>(entries: Seq<(String, F)>) -> bool {
    forall|i: int, j: int|
        0 <= i < j < entries.len() ==> #[trigger] entries[i].0@ != #[trigger] entries[j].0@
}

proof fn lemma_last_bound_none<F>(entries: Seq<(String, F)>, name: Seq<char>)
    ensures
        last_bound(entries, name) is None <==> forall|i: int|
            0 <= i < entries.len() ==> #[trigger] entries[i].0@ != name,
    decreases entries.len(),
{
    if entries.len() > 0 {
        lemma_last_bound_none(entries.drop_last(), name);
        assert forall|i: int| 0 <= i < entries.len() - 1 implies entries.drop_last()[i] == entries[i] by {}
    }
}

proof fn lemma_last_bound_at<F>(entries: Seq<(String, F)>, i: int)
    requires
        distinct_names(entries),
        0 <= i < entries.len(),
    ensures
        last_bound(entries, entries[i].0@) == Some(entries[i].1),
    decreases entries.len(),
{
    if i < entries.len() - 1 {
        let d = entries.drop_last();
        assert(d[i] == entries[i]);
        assert(entries[i].0@ != entries[entries.len() - 1].0@);
        lemma_last_bound_at(d, i);
    }
}

/// Voice commands and the actions they run; each name is bound once.
pub struct Command<F> {
    entries: Vec<(String, F)>,
}

impl<F: Fn()> Command<F> {
    /// The action bound to `name`, if any.
    pub closed spec fn action(&self, name: Seq<char>) -> Option<F> {
        last_bound(self.entries@, name)
    }

    /// The names of the commands.
    pub closed spec fn names_view(&self) -> Seq<Seq<char>> {
        self.entries@.map_values(|e: (String, F)| e.0@)
    }

    /// Whether every action may be run.
    pub closed spec fn runnable(&self) -> bool {
        forall|i: int| 0 <= i < self.entries@.len() ==> (#[trigger] self.entries@[i]).1.requires(())
    }

    /// Whether each name is bound once.
    pub closed spec fn well_formed(&self) -> bool {
        distinct_names(self.entries@)
    }

    /// The commands of `map`; when two entries share a name, the later one
    /// is kept.
    pub fn new(map: Vec<(String, F)>) -> (r: Self)
        requires
            forall|i: int| 0 <= i < map@.len() ==> (#[trigger] map@[i]).1.requires(()),
        ensures
            r.well_formed(),
            r.runnable(),
            forall|name: Seq<char>| #[trigger] r.action(name) == last_bound(map@, name),
            forall|name: Seq<char>|
                #[trigger] r.names_view().contains(name) <==> exists|i: int|
                    0 <= i < map@.len() && #[trigger] map@[i].0@ == name,
    {
        let ghost orig = map@;
        let mut rest = map;
        let mut out: Vec<(String, F)> = Vec::new();
        while rest.len() > 0
            invariant
                distinct_names(out@),
                forall|i: int| 0 <= i < out@.len() ==> (#[trigger] out@[i]).1.requires(()),
                forall|i: int| 0 <= i < rest@.len() ==> (#[trigger] rest@[i]).1.requires(()),
                forall|name: Seq<char>|
                    #[trigger] last_bound(orig, name) == match last_bound(out@, name) {
                        Some(f) => Some(f),
                        None => last_bound(rest@, name),
                    },
            decreases rest.len(),
        {
            let ghost before = rest@;
            let (name, f) = rest.pop().unwrap();
            assert(rest@ == before.drop_last());
            assert forall|i: int| 0 <= i < rest@.len() implies (#[trigger] rest@[i]).1.requires(()) by {
                assert(rest@[i] == before[i]);
            }
            let mut seen = false;
            let mut j: usize = 0;
            while j < out.len()
                invariant
                    j <= out@.len(),
                    seen <==> exists|k: int| 0 <= k < j && #[trigger] out@[k].0@ == name@,
                decreases out.len() - j,
            {
                if str_eq(out[j].0.as_str(), name.as_str()) {
                    seen = true;
                }
                j += 1;
            }
            proof {
                lemma_last_bound_none(out@, name@);
            }
            if !seen {
                let ghost old_out = out@;
                out.push((name, f));
                assert(out@.drop_last() == old_out);
            }
        }
        let r = Command { entries: out };
        assert forall|name: Seq<char>|
            #[trigger] r.names_view().contains(name) <==> exists|i: int|
                0 <= i < orig.len() && #[trigger] orig[i].0@ == name by {
            lemma_last_bound_none(out@, name);
            lemma_last_bound_none(orig, name);
            lemma_last_bound_none(Seq::<(String, F)>::empty(), name);
            if r.names_view().contains(name) {
                let k = choose|k: int| 0 <= k < r.names_view().len() && r.names_view()[k] == name;
                assert(out@[k].0@ == name);
            }
            if last_bound(out@, name) is Some {
                let k = choose|k: int| 0 <= k < out@.len() && out@[k].0@ == name;
                assert(r.names_view()[k] == name);
            }
        }
        r
    }

    /// The names of the commands.
    pub fn names(&self) -> (r: Vec<String>)
        ensures
            r@.map_values(|s: String| s@) == self.names_view(),
    {
        let mut r: Vec<String> = Vec::new();
        let n = self.entries.len();
        let mut i: usize = 0;
        while i < n
            invariant
                n == self.entries@.len(),
                i <= n,
                r@.map_values(|s: String| s@) == self.entries@.take(i as int).map_values(
                    |e: (String, F)| e.0@,
                ),
            decreases n - i,
        {
            let ghost before = r@;
            r.push(self.entries[i].0.clone());
            assert(r@.map_values(|s: String| s@) =~= before.map_values(|s: String| s@).push(
                self.entries@[i as int].0@,
            ));
            assert(self.entries@.take(i as int + 1).map_values(|e: (String, F)| e.0@)
                =~= self.entries@.take(i as int).map_values(|e: (String, F)| e.0@).push(
                self.entries@[i as int].0@,
            ));
            i += 1;
        }
        assert(self.entries@.take(n as int) == self.entries@);
        r
    }

    /// Runs the action bound to `command`, if there is one, and says
    /// whether one ran.
    pub fn execute(&self, command: &str) -> (ran: bool)
        requires
            self.well_formed(),
            self.runnable(),
        ensures
            match self.action(command@) {
                Some(f) => ran && call_ensures(f, (), ()),
                None => !ran,
            },
    {
        let n = self.entries.len();
        let mut i: usize = 0;
        while i < n
            invariant
                n == self.entries@.len(),
                i <= n,
                self.well_formed(),
                self.runnable(),
                forall|k: int| 0 <= k < i ==> #[trigger] self.entries@[k].0@ != command@,
            decreases n - i,
        {
            if str_eq(self.entries[i].0.as_str(), command) {
                proof {
                    lemma_last_bound_at(self.entries@, i as int);
                }
                let f = &self.entries[i].1;
                assert(self.entries@[i as int].1.requires(()));
                f();
                return true;
            }
            i += 1;
        }
        proof {
            lemma_last_bound_none(self.entries@, command@);
        }
        false
    }
}


/// The text stored under `key` by the last entry that names it.
pub open spec fn last_text(entries: Seq<(String, String)>, key: Seq<char>) -> Option<Seq<char>>
    decreases entries.len(),
{
    if entries.len() == 0 {
        None
    } else if entries.last().0@ == key {
        Some(entries.last().1@)
    } else {
        last_text(entries.drop_last(), key)
    }
}

/// The command dictionary of the fuzzy matcher and the cache of the matches
/// it has made.
pub struct LevenshteinMatcher {
    dict: Vec<String>,
    normalized_cache: Vec<(String, String)>,
}

impl LevenshteinMatcher {
    /// The candidates the matcher chooses from.
    pub closed spec fn dict_view(&self) -> Seq<Seq<char>> {
        self.dict@.map_values(|s: String| s@)
    }

    /// The cached match of an input, if any.
    pub closed spec fn cached_view(&self, input: Seq<char>) -> Option<Seq<char>> {
        last_text(self.normalized_cache@, input)
    }

    /// A matcher over `dict` with an empty cache.
    pub fn new(dict: Vec<String>) -> (r: Self)
        ensures
            r.dict_view() == dict@.map_values(|s: String| s@),
            forall|input: Seq<char>| #[trigger] r.cached_view(input) is None,
    {
        LevenshteinMatcher { dict, normalized_cache: Vec::new() }
    }

    /// The candidates.
    pub fn dict(&self) -> (r: &Vec<String>)
        ensures
            r@.map_values(|s: String| s@) == self.dict_view(),
    {
        &self.dict
    }

    /// The cached match of `input`, if any.
    pub fn cached(&self, input: &str) -> (r: Option<String>)
        ensures
            text_view(r) == self.cached_view(input@),
    {
        let mut i = self.normalized_cache.len();
        assert(self.normalized_cache@.take(i as int) == self.normalized_cache@);
        while i > 0
            invariant
                i <= self.normalized_cache@.len(),
                last_text(self.normalized_cache@, input@) == last_text(
                    self.normalized_cache@.take(i as int),
                    input@,
                ),
            decreases i,
        {
            assert(self.normalized_cache@.take(i as int).drop_last()
                == self.normalized_cache@.take(i as int - 1));
            if str_eq(self.normalized_cache[i - 1].0.as_str(), input) {
                return Some(copy_string(&self.normalized_cache[i - 1].1));
            }
            i -= 1;
        }
        None
    }

    /// Caches `candidate` as the match of `input`.
    pub fn remember(&mut self, input: &str, candidate: String)
        ensures
            final(self).dict_view() == old(self).dict_view(),
            forall|k: Seq<char>| #[trigger]
                final(self).cached_view(k) == if k == input@ {
                    Some(candidate@)
                } else {
                    old(self).cached_view(k)
                },
    {
        let ghost before = self.normalized_cache@;
        self.normalized_cache.push((String::from_str(input), candidate));
        assert(self.normalized_cache@.drop_last() == before);
    }
}

/// A configured voice command, with its shortcut as an input code.
#[derive(Debug)]
pub struct CommandEntry {
    /// The phrase that triggers the command.
    pub command: String,
    /// The recognition grammar of the phrase, when it is not the default one.
    pub grammar: Option<String>,
    /// The macro the command sends.
    pub keys: Vec<LocalKey>,
    /// Sound files, one of which is played with the macro.
    pub audio_files: Vec<String>,
    /// The input that also sends the macro.
    pub shortcut: Option<u64>,
}

/// The recognition grammar of a command: its own grammar collapsed when
/// that is not empty, else the default grammar of its phrase.
pub open spec fn command_grammar(command: Seq<char>, grammar: Option<Seq<char>>) -> Option<Seq<char>> {
    match grammar {
        Some(g) => if collapsed(g).len() > 0 {
            Some(collapsed(g))
        } else {
            default_grammar(command)
        },
        None => default_grammar(command),
    }
}

/// The grammars of the commands that have one, in order.
pub open spec fn command_grammars(cmds: Seq<CommandEntry>) -> Seq<Seq<char>>
    decreases cmds.len(),
{
    if cmds.len() == 0 {
        Seq::empty()
    } else {
        let rest = command_grammars(cmds.drop_last());
        match command_grammar(cmds.last().command@, text_view(cmds.last().grammar)) {
            Some(g) => rest.push(g),
            None => rest,
        }
    }
}

/// The grammar of the wake word: its own grammar collapsed when that is
/// not empty, else the default grammar of the wake word.
pub open spec fn hit_word_grammar(hit_word: Option<Seq<char>>, hit_word_grammar: Option<Seq<char>>) -> Option<
    Seq<char>,
> {
    match hit_word_grammar {
        Some(g) if g.len() > 0 => Some(collapsed(g)),
        _ => match hit_word {
            Some(h) => default_grammar(h),
            None => None,
        },
    }
}

/// The phrases the recognizer listens for: the command grammars, then the
/// wake word grammar.
pub open spec fn recognition_grammar(cmds: Seq<CommandEntry>, trigger: TriggerConfig) -> Seq<Seq<char>> {
    match hit_word_grammar(text_view(trigger.hit_word), text_view(trigger.hit_word_grammar)) {
        Some(g) => command_grammars(cmds).push(g),
        None => command_grammars(cmds),
    }
}

fn command_grammar_of(command: &String, grammar: &Option<String>) -> (r: Option<String>)
    ensures
        text_view(r) == command_grammar(command@, text_view(*grammar)),
{
    match grammar {
        Some(g) => {
            let c = collapse_whitespace_chars(g.as_str());
            if c.as_str().is_empty() {
                default_grammar_of(command.as_str())
            } else {
                Some(c)
            }
        },
        None => default_grammar_of(command.as_str()),
    }
}

/// The phrases the recognizer listens for.
pub fn build_recognition_grammar(commands: &Vec<CommandEntry>, trigger: &TriggerConfig) -> (r: Vec<
    String,
>)
    ensures
        r@.map_values(|s: String| s@) == recognition_grammar(commands@, *trigger),
{
    let mut out: Vec<String> = Vec::new();
    let n = commands.len();
    let mut i: usize = 0;
    while i < n
        invariant
            n == commands@.len(),
            i <= n,
            out@.map_values(|s: String| s@) == command_grammars(commands@.take(i as int)),
        decreases n - i,
    {
        assert(commands@.take(i as int + 1).drop_last() == commands@.take(i as int));
        let g = command_grammar_of(&commands[i].command, &commands[i].grammar);
        match g {
            Some(g) => {
                let ghost before = out@;
                out.push(g);
                assert(out@.map_values(|s: String| s@) =~= before.map_values(|s: String| s@).push(
                    out@.last()@,
                ));
            },
            None => {},
        }
        i += 1;
    }
    assert(commands@.take(n as int) == commands@);
    let extra = match &trigger.hit_word_grammar {
        Some(g) if !g.as_str().is_empty() => Some(collapse_whitespace_chars(g.as_str())),
        _ => match &trigger.hit_word {
            Some(h) => default_grammar_of(h.as_str()),
            None => None,
        },
    };
    match extra {
        Some(g) => {
            let ghost before = out@;
            out.push(g);
            assert(out@.map_values(|s: String| s@) =~= before.map_values(|s: String| s@).push(
                out@.last()@,
            ));
        },
        None => {},
    }
    out
}


/// The normalized phrases the matcher compares against: the matching key
/// of every command name whose key is not empty, in order.
pub open spec fn command_dictionary(names: Seq<Seq<char>>) -> Seq<Seq<char>>
    decreases names.len(),
{
    if names.len() == 0 {
        Seq::empty()
    } else {
        let d = command_dictionary(names.drop_last());
        let k = matching_key(names.last());
        if k.len() == 0 {
            d
        } else {
            d.push(k)
        }
    }
}

/// The command name a matching key leads back to: the first name with that
/// key; when several names share a key the first one wins.
pub open spec fn original_command(names: Seq<Seq<char>>, key: Seq<char>) -> Option<Seq<char>>
    decreases names.len(),
{
    if names.len() == 0 || key.len() == 0 {
        None
    } else if matching_key(names[0]) == key {
        Some(names[0])
    } else {
        original_command(names.drop_first(), key)
    }
}

/// The text stored under `key` by the first entry that names it.
pub open spec fn first_text(entries: Seq<(String, String)>, key: Seq<char>) -> Option<Seq<char>>
    decreases entries.len(),
{
    if entries.len() == 0 {
        None
    } else if entries[0].0@ == key {
        Some(entries[0].1@)
    } else {
        first_text(entries.drop_first(), key)
    }
}

proof fn lemma_first_text_push(entries: Seq<(String, String)>, e: (String, String), key: Seq<char>)
    ensures
        first_text(entries.push(e), key) == match first_text(entries, key) {
            Some(v) => Some(v),
            None => if e.0@ == key {
                Some(e.1@)
            } else {
                None
            },
        },
    decreases entries.len(),
{
    if entries.len() > 0 {
        assert(entries.push(e)[0] == entries[0]);
        assert(entries.push(e).drop_first() == entries.drop_first().push(e));
        lemma_first_text_push(entries.drop_first(), e, key);
    } else {
        assert(entries.push(e).drop_first().len() == 0);
        assert(first_text(entries.push(e).drop_first(), key) is None);
    }
}

proof fn lemma_original_command_push(names: Seq<Seq<char>>, n: Seq<char>, key: Seq<char>)
    ensures
        original_command(names.push(n), key) == match original_command(names, key) {
            Some(v) => Some(v),
            None => if key.len() > 0 && matching_key(n) == key {
                Some(n)
            } else {
                None
            },
        },
    decreases names.len(),
{
    if names.len() > 0 {
        assert(names.push(n)[0] == names[0]);
        assert(names.push(n).drop_first() == names.drop_first().push(n));
        lemma_original_command_push(names.drop_first(), n, key);
    } else {
        assert(names.push(n).drop_first().len() == 0);
        assert(original_command(names.push(n).drop_first(), key) is None);
    }
}

/// The matcher's dictionary of normalized command phrases and the way back
/// from a normalized phrase to the command name.
pub struct CommandIndex {
    dict: Vec<String>,
    lookup: Vec<(String, String)>,
}

impl CommandIndex {
    /// The normalized phrases, in order.
    pub closed spec fn dict_view(&self) -> Seq<Seq<char>> {
        self.dict@.map_values(|s: String| s@)
    }

    /// The command name a normalized phrase leads back to.
    pub closed spec fn original_view(&self, key: Seq<char>) -> Option<Seq<char>> {
        first_text(self.lookup@, key)
    }

    /// The index of the command names `names`.
    pub fn new(names: &Vec<String>) -> (r: Self)
        ensures
            r.dict_view() == command_dictionary(names@.map_values(|s: String| s@)),
            forall|key: Seq<char>| #[trigger]
                r.original_view(key) == original_command(names@.map_values(|s: String| s@), key),
    {
        let ghost all = names@.map_values(|s: String| s@);
        let mut dict: Vec<String> = Vec::new();
        let mut lookup: Vec<(String, String)> = Vec::new();
        let n = names.len();
        let mut i: usize = 0;
        while i < n
            invariant
                n == names@.len(),
                i <= n,
                all == names@.map_values(|s: String| s@),
                dict@.map_values(|s: String| s@) == command_dictionary(all.take(i as int)),
                forall|key: Seq<char>| #[trigger]
                    first_text(lookup@, key) == original_command(all.take(i as int), key),
            decreases n - i,
        {
            let ghost prefix = all.take(i as int);
            assert(all.take(i as int + 1) == prefix.push(names@[i as int]@));
            assert(all.take(i as int + 1).drop_last() == prefix);
            let name = &names[i];
            let key = matching_key_of(name.as_str());
            proof {
                assert forall|k: Seq<char>| #[trigger]
                    original_command(all.take(i as int + 1), k) == match original_command(prefix, k) {
                        Some(v) => Some(v),
                        None => if k.len() > 0 && matching_key(name@) == k {
                            Some(name@)
                        } else {
                            None
                        },
                    } by {
                    lemma_original_command_push(prefix, name@, k);
                }
            }
            if !key.as_str().is_empty() {
                let mut known = false;
                let m = lookup.len();
                let mut j: usize = 0;
                while j < m
                    invariant
                        m == lookup@.len(),
                        j <= m,
                        known <==> exists|t: int| 0 <= t < j && #[trigger] lookup@[t].0@ == key@,
                    decreases m - j,
                {
                    if str_eq(lookup[j].0.as_str(), key.as_str()) {
                        known = true;
                    }
                    j += 1;
                }
                proof {
                    lemma_first_text_none(lookup@, key@);
                }
                if !known {
                    let ghost before = lookup@;
                    let e = (copy_string(&key), copy_string(name));
                    lookup.push(e);
                    proof {
                        assert forall|k: Seq<char>| #[trigger]
                            first_text(lookup@, k) == original_command(all.take(i as int + 1), k) by {
                            lemma_first_text_push(before, e, k);
                        }
                    }
                }
                let ghost before_dict = dict@;
                dict.push(key);
                assert(dict@.map_values(|s: String| s@) =~= before_dict.map_values(|s: String| s@).push(
                    dict@.last()@,
                ));
            }
            i += 1;
        }
        assert(all.take(n as int) == all);
        CommandIndex { dict, lookup }
    }

    /// The normalized phrases.
    pub fn dict(&self) -> (r: Vec<String>)
        ensures
            r@.map_values(|s: String| s@) == self.dict_view(),
    {
        let mut r: Vec<String> = Vec::new();
        let n = self.dict.len();
        let mut i: usize = 0;
        while i < n
            invariant
                n == self.dict@.len(),
                i <= n,
                r@.map_values(|s: String| s@) == self.dict@.take(i as int).map_values(|s: String| s@),
            decreases n - i,
        {
            let ghost before = r@;
            r.push(copy_string(&self.dict[i]));
            assert(r@.map_values(|s: String| s@) =~= before.map_values(|s: String| s@).push(
                self.dict@[i as int]@,
            ));
            assert(self.dict@.take(i as int + 1).map_values(|s: String| s@) =~= self.dict@.take(
                i as int,
            ).map_values(|s: String| s@).push(self.dict@[i as int]@));
            i += 1;
        }
        assert(self.dict@.take(n as int) == self.dict@);
        r
    }

    /// The command name that the normalized phrase `key` leads back to.
    pub fn original(&self, key: &str) -> (r: Option<String>)
        ensures
            text_view(r) == self.original_view(key@),
    {
        let n = self.lookup.len();
        let mut i: usize = 0;
        assert(self.lookup@.skip(0) == self.lookup@);
        while i < n
            invariant
                n == self.lookup@.len(),
                i <= n,
                first_text(self.lookup@, key@) == first_text(self.lookup@.skip(i as int), key@),
            decreases n - i,
        {
            assert(self.lookup@.skip(i as int).drop_first() == self.lookup@.skip(i as int + 1));
            if str_eq(self.lookup[i].0.as_str(), key) {
                return Some(copy_string(&self.lookup[i].1));
            }
            i += 1;
        }
        None
    }
}

proof fn lemma_first_text_none(entries: Seq<(String, String)>, key: Seq<char>)
    ensures
        first_text(entries, key) is None <==> forall|i: int|
            0 <= i < entries.len() ==> #[trigger] entries[i].0@ != key,
    decreases entries.len(),
{
    if entries.len() > 0 {
        lemma_first_text_none(entries.drop_first(), key);
        assert forall|i: int| 0 < i < entries.len() implies entries.drop_first()[i - 1] == entries[i] by {}
        if first_text(entries.drop_first(), key) is None && entries[0].0@ != key {
            assert forall|i: int| 0 <= i < entries.len() implies #[trigger] entries[i].0@ != key by {
                if i > 0 {
                    assert(entries.drop_first()[i - 1] == entries[i]);
                }
            }
        }
    }
}


/// The normalized wake word, when one is set and it is not empty once
/// normalized.
pub open spec fn normalized_hit_word(hit_word: Option<Seq<char>>) -> Option<Seq<char>> {
    match hit_word {
        Some(h) => if matching_key(h).len() > 0 {
            Some(matching_key(h))
        } else {
            None
        },
        None => None,
    }
}

/// The normalized wake word of a wake word setting.
pub fn normalize_hit_word(hit_word: &Option<String>) -> (r: Option<String>)
    ensures
        text_view(r) == normalized_hit_word(text_view(*hit_word)),
{
    match hit_word {
        Some(h) => {
            let k = matching_key_of(h.as_str());
            if k.as_str().is_empty() {
                None
            } else {
                Some(k)
            }
        },
        None => None,
    }
}

/// The last position below `n` at which `h` occurs in `s`.
pub open spec fn last_occurrence_below(s: Seq<char>, h: Seq<char>, n: nat) -> Option<int>
    decreases n,
{
    if n == 0 {
        None
    } else if occurs_at(s, h, n - 1) {
        Some(n - 1)
    } else {
        last_occurrence_below(s, h, (n - 1) as nat)
    }
}

/// What follows the last occurrence of `h` in `s`, if `h` occurs.
pub open spec fn after_last(s: Seq<char>, h: Seq<char>) -> Option<Seq<char>> {
    match last_occurrence_below(s, h, s.len() + 1) {
        Some(i) => Some(s.skip(i + h.len())),
        None => None,
    }
}

/// The text a recognition result asks the matcher about: nothing for blank
/// speech; else the speech normalized, and when a wake word is required,
/// what follows its last occurrence (nothing when it does not occur).
pub open spec fn command_text(text: Seq<char>, hit: Option<Seq<char>>) -> Option<Seq<char>> {
    if is_blank(text) {
        None
    } else {
        let speech = matching_key(trimmed(text));
        match hit {
            None => Some(speech),
            Some(h) => after_last(speech, h),
        }
    }
}

proof fn lemma_occurrence_below_bound(s: Seq<char>, h: Seq<char>, n: nat)
    ensures
        last_occurrence_below(s, h, n) matches Some(i) ==> occurs_at(s, h, i),
    decreases n,
{
    if n > 0 {
        lemma_occurrence_below_bound(s, h, (n - 1) as nat);
    }
}

/// What follows the last occurrence of `h` in `s`.
fn text_after_last(s: &Vec<char>, h: &Vec<char>) -> (r: Option<Vec<char>>)
    ensures
        match r {
            Some(v) => after_last(s@, h@) == Some(v@),
            None => after_last(s@, h@) is None,
        },
{
    let sl = s.len();
    let hl = h.len();
    if hl > sl {
        proof {
            lemma_none_below_when_long(s@, h@, (sl + 1) as nat);
        }
        return None;
    }
    let mut i: usize = sl - hl;
    proof {
        lemma_skip_tail_positions(s@, h@, (sl + 1) as nat, (i + 1) as nat);
    }
    loop
        invariant
            sl == s@.len(),
            hl == h@.len(),
            hl <= sl,
            i <= sl - hl,
            last_occurrence_below(s@, h@, (sl + 1) as nat) == last_occurrence_below(
                s@,
                h@,
                (i + 1) as nat,
            ),
        decreases i,
    {
        let mut j: usize = 0;
        let mut same = true;
        while j < hl
            invariant
                hl == h@.len(),
                sl == s@.len(),
                i + hl <= sl,
                j <= hl,
                same <==> forall|t: int| 0 <= t < j ==> s@[i + t] == h@[t],
            decreases hl - j,
        {
            if s[i + j] != h[j] {
                same = false;
            }
            j += 1;
        }
        if same {
            assert(s@.subrange(i as int, i + hl) =~= h@);
            let tail = slice_chars(s, i + hl, sl);
            assert(tail@ == s@.skip(i + hl));
            return Some(tail);
        }
        assert(!occurs_at(s@, h@, i as int)) by {
            if s@.subrange(i as int, i + hl) == h@ {
                let t = choose|t: int| 0 <= t < hl && s@[i + t] != h@[t];
                assert(s@.subrange(i as int, i + hl)[t] == s@[i + t]);
            }
        }
        if i == 0 {
            assert(last_occurrence_below(s@, h@, 0) is None);
            assert(last_occurrence_below(s@, h@, 1) is None);
            return None;
        }
        i = i - 1;
    }
}

proof fn lemma_none_below_when_long(s: Seq<char>, h: Seq<char>, m: nat)
    requires
        h.len() > s.len(),
    ensures
        last_occurrence_below(s, h, m) is None,
    decreases m,
{
    if m > 0 {
        lemma_none_below_when_long(s, h, (m - 1) as nat);
    }
}

proof fn lemma_skip_tail_positions(s: Seq<char>, h: Seq<char>, m: nat, n: nat)
    requires
        h.len() <= s.len(),
        n == s.len() - h.len() + 1,
        n <= m <= s.len() + 1,
    ensures
        last_occurrence_below(s, h, m) == last_occurrence_below(s, h, n),
    decreases m,
{
    if m > n {
        assert(!occurs_at(s, h, m - 1));
        lemma_skip_tail_positions(s, h, (m - 1) as nat, n);
    }
}

/// The text a recognition result asks the matcher about, given the
/// normalized wake word.
pub fn command_text_of(text: &str, hit: &Option<String>) -> (r: Option<String>)
    ensures
        text_view(r) == command_text(text@, text_view(*hit)),
{
    if is_blank_str(text) {
        return None;
    }
    let trimmed_text = trim_str(text);
    let speech = matching_key_of(trimmed_text.as_str());
    match hit {
        None => Some(speech),
        Some(h) => {
            let s = chars_of(speech.as_str());
            let hc = chars_of(h.as_str());
            match text_after_last(&s, &hc) {
                Some(rest) => Some(string_of(&rest)),
                None => None,
            }
        },
    }
}


/// Why the voice command engine cannot start with a set of commands.
#[derive(Clone, Copy, Debug, PartialEq, Eq, Structural)]
pub enum EngineSetupError {
    /// No command is configured.
    NoCommands,
    /// A command has an empty phrase.
    EmptyCommand,
    /// The macro of a command is not valid.
    InvalidMacro(MacroError),
}

/// The message of an engine setup error.
pub open spec fn engine_setup_error_text(e: EngineSetupError) -> Seq<char> {
    match e {
        EngineSetupError::NoCommands => "at least one command must be configured"@,
        EngineSetupError::EmptyCommand => "command must not be empty"@,
        EngineSetupError::InvalidMacro(m) => macro_error_text(m),
    }
}

/// The message of an engine setup error.
pub fn engine_setup_error_message(e: EngineSetupError) -> (r: String)
    ensures
        r@ == engine_setup_error_text(e),
{
    match e {
        EngineSetupError::NoCommands => String::from_str("at least one command must be configured"),
        EngineSetupError::EmptyCommand => String::from_str("command must not be empty"),
        EngineSetupError::InvalidMacro(m) => macro_error_message(m),
    }
}

/// The problem with the first command that has one.
pub open spec fn first_command_error(cmds: Seq<CommandEntry>) -> Option<EngineSetupError>
    decreases cmds.len(),
{
    if cmds.len() == 0 {
        None
    } else if cmds[0].command@.len() == 0 {
        Some(EngineSetupError::EmptyCommand)
    } else {
        match macro_verdict(cmds[0].keys@) {
            Err(e) => Some(EngineSetupError::InvalidMacro(e)),
            Ok(_) => first_command_error(cmds.drop_first()),
        }
    }
}

/// The verdict on a set of commands: there must be one, and each must have
/// a phrase and a valid macro.
pub open spec fn commands_verdict(cmds: Seq<CommandEntry>) -> Result<(), EngineSetupError> {
    if cmds.len() == 0 {
        Err(EngineSetupError::NoCommands)
    } else {
        match first_command_error(cmds) {
            Some(e) => Err(e),
            None => Ok(()),
        }
    }
}

/// Checks the commands the engine is to start with.
pub fn check_commands(commands: &Vec<CommandEntry>) -> (r: Result<(), EngineSetupError>)
    ensures
        r == commands_verdict(commands@),
{
    let n = commands.len();
    if n == 0 {
        return Err(EngineSetupError::NoCommands);
    }
    let mut i: usize = 0;
    assert(commands@.skip(0) == commands@);
    while i < n
        invariant
            n == commands@.len(),
            i <= n,
            first_command_error(commands@) == first_command_error(commands@.skip(i as int)),
        decreases n - i,
    {
        assert(commands@.skip(i as int).drop_first() == commands@.skip(i as int + 1));
        assert(commands@.skip(i as int)[0] == commands@[i as int]);
        if commands[i].command.as_str().is_empty() {
            return Err(EngineSetupError::EmptyCommand);
        }
        match has_validity(commands[i].keys.as_slice()) {
            Err(e) => {
                return Err(EngineSetupError::InvalidMacro(e));
            },
            Ok(()) => {},
        }
        i += 1;
    }
    Ok(())
}

/// The shortcut entries of the commands that have a shortcut, in order.
pub open spec fn shortcut_entries(cmds: Seq<CommandEntry>) -> Seq<(u64, Seq<LocalKey>)>
    decreases cmds.len(),
{
    if cmds.len() == 0 {
        Seq::empty()
    } else {
        let rest = shortcut_entries(cmds.drop_last());
        match cmds.last().shortcut {
            Some(input) => rest.push((input, cmds.last().keys@)),
            None => rest,
        }
    }
}

/// Picks one of `files` at random.
///
/// Calls `rand::seq::IndexedRandom::choose` on the slice with the thread's
/// generator `rand::rng()`. Its documentation and source give nothing for an
/// empty slice and one of the slice's elements otherwise; which one is left
/// to chance and is not stated.
#[verifier::external_body]
fn choose_file(files: &Vec<String>) -> (r: Option<String>)
    ensures
        r is None <==> files@.len() == 0,
        r matches Some(f) ==> exists|i: int| 0 <= i < files@.len() && files@[i]@ == f@,
{
    rand::seq::IndexedRandom::choose(files.as_slice(), &mut rand::rng()).cloned()
}

/// What a recognized command does: the macro it sends, and one of its
/// sound files picked at random, none when it has no sound file.
pub fn command_effect(command: &CommandEntry) -> (r: (Vec<LocalKey>, Option<String>))
    ensures
        r.0@ == command.keys@,
        r.1 is None <==> command.audio_files@.len() == 0,
        r.1 matches Some(f) ==> exists|i: int|
            0 <= i < command.audio_files@.len() && command.audio_files@[i]@ == f@,
{
    let keys = command.keys.clone();
    (keys, choose_file(&command.audio_files))
}

/// The shortcuts of the commands; a later command overrides an earlier one
/// with the same shortcut.
pub fn shortcuts_of(commands: &Vec<CommandEntry>) -> (r: Shortcuts)
    ensures
        r.entries@.map_values(|e: (u64, Vec<LocalKey>)| (e.0, e.1@)) == shortcut_entries(commands@),
{
    let mut entries: Vec<(u64, Vec<LocalKey>)> = Vec::new();
    let n = commands.len();
    let mut i: usize = 0;
    while i < n
        invariant
            n == commands@.len(),
            i <= n,
            entries@.map_values(|e: (u64, Vec<LocalKey>)| (e.0, e.1@)) == shortcut_entries(
                commands@.take(i as int),
            ),
        decreases n - i,
    {
        assert(commands@.take(i as int + 1).drop_last() == commands@.take(i as int));
        match commands[i].shortcut {
            Some(input) => {
                let ghost before = entries@;
                let keys = commands[i].keys.clone();
                assert(keys@ == commands@[i as int].keys@);
                entries.push((input, keys));
                assert(entries@.map_values(|e: (u64, Vec<LocalKey>)| (e.0, e.1@)) =~= before.map_values(
                    |e: (u64, Vec<LocalKey>)| (e.0, e.1@),
                ).push((input, commands@[i as int].keys@)));
            },
            None => {},
        }
        i += 1;
    }
    assert(commands@.take(n as int) == commands@);
    Shortcuts { entries }
}

/// The directory of the command sounds: the given one unless absent or
/// empty, else `audio`.
pub fn resolve_audio_dir(audio_dir: Option<String>) -> (r: String)
    ensures
        r@ == match audio_dir {
            Some(d) => if d@.len() > 0 {
                d@
            } else {
                "audio"@
            },
            None => "audio"@,
        },
{
    match audio_dir {
        Some(d) => if d.as_str().is_empty() {
            String::from_str("audio")
        } else {
            d
        },
        None => String::from_str("audio"),
    }
}

/// The direction key an arrow name read from the screen stands for.
pub open spec fn arrow_key(name: Seq<char>) -> Option<LocalKey> {
    if name == "UP"@ {
        Some(LocalKey::UP)
    } else if name == "DOWN"@ {
        Some(LocalKey::DOWN)
    } else if name == "LEFT"@ {
        Some(LocalKey::LEFT)
    } else if name == "RIGHT"@ {
        Some(LocalKey::RIGHT)
    } else {
        None
    }
}

/// The direction keys of a sequence of arrow names, unknown names skipped.
pub open spec fn arrow_keys_of(names: Seq<Seq<char>>) -> Seq<LocalKey>
    decreases names.len(),
{
    if names.len() == 0 {
        Seq::empty()
    } else {
        let rest = arrow_keys_of(names.drop_last());
        match arrow_key(names.last()) {
            Some(k) => rest.push(k),
            None => rest,
        }
    }
}

/// The direction keys of the arrows recognized on screen.
pub fn arrow_keys(sequence: &Vec<String>) -> (r: Vec<LocalKey>)
    ensures
        r@ == arrow_keys_of(sequence@.map_values(|s: String| s@)),
{
    let ghost names = sequence@.map_values(|s: String| s@);
    let mut out: Vec<LocalKey> = Vec::new();
    let n = sequence.len();
    let mut i: usize = 0;
    while i < n
        invariant
            n == sequence@.len(),
            i <= n,
            names == sequence@.map_values(|s: String| s@),
            out@ == arrow_keys_of(names.take(i as int)),
        decreases n - i,
    {
        assert(names.take(i as int + 1).drop_last() == names.take(i as int));
        assert(names.take(i as int + 1).last() == sequence@[i as int]@);
        let name = sequence[i].as_str();
        if str_eq(name, "UP") {
            out.push(LocalKey::UP);
        } else if str_eq(name, "DOWN") {
            out.push(LocalKey::DOWN);
        } else if str_eq(name, "LEFT") {
            out.push(LocalKey::LEFT);
        } else if str_eq(name, "RIGHT") {
            out.push(LocalKey::RIGHT);
        }
        i += 1;
    }
    assert(names.take(n as int) == names);
    out
}


/// Every phrase of the command dictionary leads back to a command name
/// with that phrase as its matching key.
pub proof fn lemma_dictionary_leads_back(names: Seq<Seq<char>>, key: Seq<char>)
    requires
        command_dictionary(names).contains(key),
    ensures
        original_command(names, key) matches Some(m) && matching_key(m) == key && names.contains(m),
    decreases names.len(),
{
    let d = command_dictionary(names.drop_last());
    let last = names.last();
    lemma_original_command_push(names.drop_last(), last, key);
    assert(names.drop_last().push(last) == names);
    if d.contains(key) {
        lemma_dictionary_leads_back(names.drop_last(), key);
        let m = original_command(names.drop_last(), key)->0;
        let w = choose|w: int| 0 <= w < names.drop_last().len() && names.drop_last()[w] == m;
        assert(names[w] == m);
    } else {
        assert(matching_key(last) == key && key.len() > 0);
        assert(names[names.len() - 1] == last);
        if original_command(names.drop_last(), key) is Some {
            lemma_original_found(names.drop_last(), key);
            let m = original_command(names.drop_last(), key)->0;
            let w = choose|w: int| 0 <= w < names.drop_last().len() && names.drop_last()[w] == m;
            assert(names[w] == m);
        }
    }
}

proof fn lemma_original_found(names: Seq<Seq<char>>, key: Seq<char>)
    requires
        original_command(names, key) is Some,
    ensures
        original_command(names, key) matches Some(m) && matching_key(m) == key && names.contains(m),
    decreases names.len(),
{
    if matching_key(names[0]) != key {
        lemma_original_found(names.drop_first(), key);
        let m = original_command(names.drop_first(), key)->0;
        let w = choose|w: int| 0 <= w < names.drop_first().len() && names.drop_first()[w] == m;
        assert(names[w + 1] == m);
    } else {
        assert(names[0] == names[0]);
    }
}


/// A result of the speech recognizer.
#[derive(Debug)]
pub struct RecognitionResult {
    pub text: String,
    /// Whether the utterance is still going on.
    pub is_partial: bool,
}

/// The input device the user selected, unless absent or blank; when this
/// gives nothing the system's default device is used.
pub fn resolve_input_device_name(selected_name: Option<String>) -> (r: Option<String>)
    ensures
        match selected_name {
            Some(n) => if is_blank(n@) {
                r is None
            } else {
                r == Some(n)
            },
            None => r is None,
        },
{
    match selected_name {
        Some(n) => if is_blank_str(n.as_str()) {
            None
        } else {
            Some(n)
        },
        None => None,
    }
}

} // verus!
