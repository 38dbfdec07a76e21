//! The alias table and the alias expander.
//!
//! An alias is a macro for the first word of a line: the expander replaces
//! that word by the stored text, once, and leaves the rest of the line as it
//! is. The table also knows the text form in which aliases are kept on disk.

use vstd::prelude::*;
use vstd::string::*;

use crate::expand::{
    append_range, find_char, lemma_span_until_first, pair_views, past, span_until,
};
use crate::text::{
    chars_of, comes_before, is_space, has_prefix_at, join_spaced, join_words, lemma_less_irreflexive,
    lemma_less_total, lemma_less_transitive, lemma_trim_nothing, push_char, split_whitespace,
    split_words, starts_with, string_of, text_less, texts, trim, trim_text,
};

verus! {

/// Whether no two pairs of `entries` have the same name.
pub open spec fn unique_names(entries: Seq<(Seq<char>, Seq<char>)>) -> bool {
    forall|i: int, j: int|
        0 <= i < entries.len() && 0 <= j < entries.len() && i != j ==> #[trigger] entries[i].0
            != #[trigger] entries[j].0
}

/// Whether the pairs of `entries` stand in the order of their names.
pub open spec fn sorted_names(entries: Seq<(Seq<char>, Seq<char>)>) -> bool {
    forall|i: int, j: int|
        0 <= i < j < entries.len() ==> text_less(
            (#[trigger] entries[i]).0,
            (#[trigger] entries[j]).0,
        )
}

/// In a table that is sorted by name no name occurs twice.
pub proof fn lemma_sorted_is_unique(entries: Seq<(Seq<char>, Seq<char>)>)
    requires
        sorted_names(entries),
    ensures
        unique_names(entries),
{
    assert forall|i: int, j: int|
        0 <= i < entries.len() && 0 <= j < entries.len() && i != j implies (
    #[trigger] entries[i]).0 != (#[trigger] entries[j]).0 by {
        lemma_less_irreflexive(entries[i].0, 0);
        if i < j {
            assert(text_less(entries[i].0, entries[j].0));
        } else {
            assert(text_less(entries[j].0, entries[i].0));
        }
    }
}

/// Whether `entries` has a pair named `name`.
pub open spec fn has_name(entries: Seq<(Seq<char>, Seq<char>)>, name: Seq<char>) -> bool {
    exists|i: int| 0 <= i < entries.len() && #[trigger] entries[i].0 == name
}

/// The position of a pair named `name` in `entries`.
pub open spec fn position_of(entries: Seq<(Seq<char>, Seq<char>)>, name: Seq<char>) -> int {
    choose|i: int| 0 <= i < entries.len() && #[trigger] entries[i].0 == name
}

/// The mapping from name to replacement text that `entries` stands for.
pub open spec fn table_of(entries: Seq<(Seq<char>, Seq<char>)>) -> Map<Seq<char>, Seq<char>> {
    Map::new(
        |name: Seq<char>| has_name(entries, name),
        |name: Seq<char>| entries[position_of(entries, name)].1,
    )
}

/// The line `line` after alias expansion under `table`: where the first word
/// of the line is an alias, its replacement text followed by the other words
/// of the line, one space before each; else the line as it is.
pub open spec fn expand_alias(table: Map<Seq<char>, Seq<char>>, line: Seq<char>) -> Seq<char> {
    let parts = split_whitespace(line);
    if parts.len() == 0 || !table.contains_key(parts[0]) {
        line
    } else if parts.len() == 1 {
        table[parts[0]]
    } else {
        table[parts[0]] + seq![' '] + join_spaced(parts.skip(1))
    }
}

/// A line whose first word is no alias, or that has no word at all, is left
/// unchanged by alias expansion.
pub proof fn lemma_expand_without_alias(table: Map<Seq<char>, Seq<char>>, line: Seq<char>)
    requires
        split_whitespace(line).len() == 0 || !table.contains_key(split_whitespace(line)[0]),
    ensures
        expand_alias(table, line) == line,
{
}

/// The table of aliases: each name has one replacement text.
pub struct AliasManager {
    aliases: Vec<(String, String)>,
}

impl View for AliasManager {
    type V = Map<Seq<char>, Seq<char>>;

    open spec fn view(&self) -> Map<Seq<char>, Seq<char>> {
        table_of(self.entries())
    }
}

impl AliasManager {
    /// The pairs of name and replacement text, in the order of the names.
    pub closed spec fn entries(&self) -> Seq<(Seq<char>, Seq<char>)> {
        pair_views(self.aliases@)
    }

    /// Whether the table is valid: its pairs stand in the order of their
    /// names, so that no name occurs twice. Every table that this module hands
    /// out is valid.
    pub closed spec fn well_formed(&self) -> bool {
        sorted_names(pair_views(self.aliases@))
    }

    /// A table without aliases.
    pub fn new() -> (table: AliasManager)
        ensures
            table.well_formed(),
            table@ == Map::<Seq<char>, Seq<char>>::empty(),
            table.entries().len() == 0,
    {
        let table = AliasManager { aliases: Vec::new() };
        assert(table@ =~= Map::<Seq<char>, Seq<char>>::empty());
        table
    }

    /// The position of the pair named `name`, if there is one.
    fn find(&self, name: &String) -> (found: Option<usize>)
        requires
            self.well_formed(),
        ensures
            unique_names(self.entries()),
            match found {
                Some(i) => i < self.aliases.len() && self.entries()[i as int].0 == name@
                    && has_name(self.entries(), name@) && position_of(self.entries(), name@) == i,
                None => !has_name(self.entries(), name@),
            },
    {
        proof {
            lemma_sorted_is_unique(self.entries());
        }
        let mut i: usize = 0;
        while i < self.aliases.len()
            invariant
                i <= self.aliases.len(),
                unique_names(self.entries()),
                forall|j: int| 0 <= j < i ==> (#[trigger] self.entries()[j]).0 != name@,
            decreases self.aliases.len() - i,
        {
            if self.aliases[i].0 == *name {
                assert(self.entries()[i as int].0 == name@);
                assert(position_of(self.entries(), name@) == i);
                return Some(i);
            }
            i += 1;
        }
        None
    }

    /// Defines the alias `name` as `value`, in place of what it stood for.
    pub fn set(&mut self, name: String, value: String)
        requires
            old(self).well_formed(),
        ensures
            final(self).well_formed(),
            final(self)@ == old(self)@.insert(name@, value@),
    {
        let ghost before = self.entries();
        match self.find(&name) {
            Some(i) => {
                proof {
                    let after = before.update(i as int, (name@, value@));
                    assert(pair_views(self.aliases@.update(i as int, (name, value))) =~= after);
                    assert(forall|j: int| 0 <= j < after.len() ==> (#[trigger] after[j]).0 == before[j].0);
                    assert forall|a: int, b: int| 0 <= a < b < after.len() implies text_less(
                        (#[trigger] after[a]).0,
                        (#[trigger] after[b]).0,
                    ) by {
                        assert(text_less(before[a].0, before[b].0));
                    }
                    assert forall|k: Seq<char>| has_name(after, k) == has_name(before, k) by {
                        if has_name(before, k) {
                            let j = position_of(before, k);
                            assert(after[j].0 == k);
                        }
                        if has_name(after, k) {
                            let j = position_of(after, k);
                            assert(before[j].0 == k);
                        }
                    }
                    assert forall|k: Seq<char>| has_name(after, k) implies table_of(after)[k] == (
                    if k == name@ {
                        value@
                    } else {
                        table_of(before)[k]
                    }) by {
                        let a = position_of(after, k);
                        let b = position_of(before, k);
                        assert(before[a].0 == k);
                        assert(a == b);
                    }
                    assert(table_of(after) =~= table_of(before).insert(name@, value@));
                }
                self.aliases.set(i, (name, value));
            },
            None => {
                let at = self.insertion_point(&name);
                proof {
                    let p = at as int;
                    let after = before.insert(p, (name@, value@));
                    assert(pair_views(self.aliases@.insert(p, (name, value))) =~= after);
                    assert forall|a: int, b: int| 0 <= a < b < after.len() implies text_less(
                        (#[trigger] after[a]).0,
                        (#[trigger] after[b]).0,
                    ) by {
                        let a0 = if a < p { a } else { a - 1 };
                        let b0 = if b < p { b } else { b - 1 };
                        if a != p {
                            assert(after[a] == before[a0]);
                        }
                        if b != p {
                            assert(after[b] == before[b0]);
                        }
                        if a == p {
                            assert(text_less(name@, before[p].0));
                            if b0 > p {
                                assert(text_less(before[p].0, before[b0].0));
                                lemma_less_transitive(name@, before[p].0, before[b0].0, 0);
                            }
                        } else if b == p {
                            assert(text_less(before[a0].0, name@));
                        } else {
                            assert(text_less(before[a0].0, before[b0].0));
                        }
                    }
                    assert forall|k: Seq<char>| has_name(after, k) == (k == name@ || has_name(
                        before,
                        k,
                    )) by {
                        if has_name(before, k) {
                            let j = position_of(before, k);
                            let j1 = if j < p { j } else { j + 1 };
                            assert(after[j1] == before[j]);
                            assert(after[j1].0 == k);
                        }
                        if k == name@ {
                            assert(after[p].0 == k);
                        }
                        if has_name(after, k) {
                            let j = position_of(after, k);
                            if j != p {
                                let j0 = if j < p { j } else { j - 1 };
                                assert(after[j] == before[j0]);
                                assert(before[j0].0 == k);
                            }
                        }
                    }
                    assert forall|k: Seq<char>| has_name(after, k) implies table_of(after)[k] == (
                    if k == name@ {
                        value@
                    } else {
                        table_of(before)[k]
                    }) by {
                        let a = position_of(after, k);
                        if a != p {
                            let a0 = if a < p { a } else { a - 1 };
                            assert(after[a] == before[a0]);
                            assert(before[a0].0 == k);
                            let b = position_of(before, k);
                            assert(a0 == b);
                        }
                    }
                    assert(table_of(after) =~= table_of(before).insert(name@, value@));
                }
                self.aliases.insert(at, (name, value));
            },
        }
    }

    /// The position at which a pair named `name`, which the table does not
    /// hold, keeps the table sorted.
    fn insertion_point(&self, name: &String) -> (at: usize)
        requires
            self.well_formed(),
            !has_name(self.entries(), name@),
        ensures
            at <= self.aliases.len(),
            forall|j: int| 0 <= j < at ==> text_less((#[trigger] self.entries()[j]).0, name@),
            at < self.aliases.len() ==> text_less(name@, self.entries()[at as int].0),
    {
        let mut at: usize = 0;
        while at < self.aliases.len()
            invariant
                at <= self.aliases.len(),
                !has_name(self.entries(), name@),
                forall|j: int| 0 <= j < at ==> text_less((#[trigger] self.entries()[j]).0, name@),
            decreases self.aliases.len() - at,
        {
            assert(self.entries()[at as int].0 == self.aliases@[at as int].0@);
            if comes_before(name.as_str(), self.aliases[at].0.as_str()) {
                return at;
            }
            proof {
                lemma_less_total(self.entries()[at as int].0, name@, 0);
            }
            at += 1;
        }
        at
    }

    /// Removes the alias `name`. Says whether there was one.
    pub fn unset(&mut self, name: &str) -> (removed: bool)
        requires
            old(self).well_formed(),
        ensures
            final(self).well_formed(),
            removed == old(self)@.contains_key(name@),
            final(self)@ == old(self)@.remove(name@),
    {
        let ghost before = self.entries();
        let wanted = name.to_owned();
        match self.find(&wanted) {
            Some(i) => {
                proof {
                    let after = before.remove(i as int);
                    assert(pair_views(self.aliases@.remove(i as int)) =~= after);
                    assert forall|a: int, b: int| 0 <= a < b < after.len() implies text_less(
                        (#[trigger] after[a]).0,
                        (#[trigger] after[b]).0,
                    ) by {
                        let a0 = if a < i { a } else { a + 1 };
                        let b0 = if b < i { b } else { b + 1 };
                        assert(after[a] == before[a0]);
                        assert(after[b] == before[b0]);
                        assert(text_less(before[a0].0, before[b0].0));
                    }
                    assert forall|k: Seq<char>| has_name(after, k) == (k != name@ && has_name(
                        before,
                        k,
                    )) by {
                        if has_name(before, k) && k != name@ {
                            let j = position_of(before, k);
                            let j1 = if j < i { j } else { j - 1 };
                            assert(after[j1] == before[j]);
                            assert(after[j1].0 == k);
                        }
                        if has_name(after, k) {
                            let j = position_of(after, k);
                            let j0 = if j < i { j } else { j + 1 };
                            assert(after[j] == before[j0]);
                            assert(before[j0].0 == k);
                        }
                    }
                    assert forall|k: Seq<char>| has_name(after, k) implies table_of(after)[k]
                        == table_of(before)[k] by {
                        let a = position_of(after, k);
                        let a0 = if a < i { a } else { a + 1 };
                        assert(after[a] == before[a0]);
                        assert(before[a0].0 == k);
                        let b = position_of(before, k);
                        assert(a0 == b);
                    }
                    assert(table_of(after) =~= table_of(before).remove(name@));
                }
                self.aliases.remove(i);
                true
            },
            None => {
                assert(table_of(before) =~= table_of(before).remove(name@));
                false
            },
        }
    }

    /// The replacement text of the alias `name`, if it is defined.
    pub fn get(&self, name: &str) -> (value: Option<&String>)
        requires
            self.well_formed(),
        ensures
            match value {
                Some(v) => self@.contains_key(name@) && self@[name@] == v@,
                None => !self@.contains_key(name@),
            },
    {
        let wanted = name.to_owned();
        match self.find(&wanted) {
            Some(i) => Some(&self.aliases[i].1),
            None => None,
        }
    }

    /// All aliases, as pairs of name and replacement text, in the order of
    /// the names. No name occurs twice, and the pairs are those of the table.
    pub fn list(&self) -> (pairs: &Vec<(String, String)>)
        requires
            self.well_formed(),
        ensures
            pair_views(pairs@) == self.entries(),
            sorted_names(self.entries()),
            unique_names(self.entries()),
            self@ == table_of(self.entries()),
    {
        proof {
            lemma_sorted_is_unique(self.entries());
        }
        &self.aliases
    }

    /// Expands the alias at the start of `line`, if there is one: the first
    /// word is replaced by its replacement text and the other words follow,
    /// one space before each. The replacement text is not expanded again.
    pub fn expand(&self, line: &str) -> (expanded: String)
        requires
            self.well_formed(),
        ensures
            expanded@ == expand_alias(self@, line@),
    {
        let parts = split_words(line);
        if parts.len() == 0 {
            return line.to_owned();
        }
        assert(texts(parts@)[0] == parts@[0]@);
        match self.get(parts[0].as_str()) {
            Some(value) => {
                let mut result = value.clone();
                if parts.len() > 1 {
                    push_char(&mut result, ' ');
                    let rest = join_words(&parts, 1);
                    result.append(rest.as_str());
                    assert(result@ =~= value@ + seq![' '] + rest@);
                }
                result
            },
            None => line.to_owned(),
        }
    }
}

/// Whether position `j` of `s` starts the four characters `'\''`, which
/// stand for one single quote inside a single-quoted value.
pub open spec fn is_escaped_quote(s: Seq<char>, j: int) -> bool {
    &&& 0 <= j
    &&& j + 3 < s.len()
    &&& s[j] == '\''
    &&& s[j + 1] == '\\'
    &&& s[j + 2] == '\''
    &&& s[j + 3] == '\''
}

/// The text of a single-quoted value, read from position `j` of `s` on,
/// after `out`: each `'\''` gives one single quote, any other single quote
/// closes the value, and every other character stands for itself. A value
/// that is not closed lasts to the end.
pub open spec fn unquote_from(s: Seq<char>, j: int, out: Seq<char>) -> Seq<char>
    decreases s.len() - j,
{
    if j < 0 || j >= s.len() {
        out
    } else if is_escaped_quote(s, j) {
        unquote_from(s, j + 4, out.push('\''))
    } else if s[j] == '\'' {
        out
    } else {
        unquote_from(s, j + 1, out.push(s[j]))
    }
}

/// The name and the value that the text after `alias ` defines: the name is
/// what stands before the first `=`, the value what stands after it, both
/// without white space at their ends. A value that starts with a single
/// quote is read to its closing quote, with each `'\''` taken as one single
/// quote; a value that starts with a double quote lasts to the next double
/// quote. A definition whose first character is `=`, or that is empty,
/// defines nothing.
pub open spec fn definition_spec(line: Seq<char>) -> Option<(Seq<char>, Seq<char>)> {
    let eq = span_until(line, 0, '=') as int;
    if eq == 0 {
        None
    } else {
        let start = past(line, eq);
        let raw = if start < line.len() && line[start] == '\'' {
            unquote_from(line, start + 1, Seq::empty())
        } else if start < line.len() && line[start] == '"' {
            line.subrange(start + 1, start + 1 + span_until(line, start + 1, '"'))
        } else {
            line.skip(start)
        };
        Some((trim(line.take(eq)), trim(raw)))
    }
}

/// The alias that one line of the alias file defines: blank lines, comment
/// lines that start with `#`, and lines that do not start with `alias `
/// define nothing.
pub open spec fn stored_alias(line: Seq<char>) -> Option<(Seq<char>, Seq<char>)> {
    let t = trim(line);
    if t.len() == 0 || t[0] == '#' || !starts_with(t, "alias "@) {
        None
    } else {
        definition_spec(t.skip("alias "@.len() as int))
    }
}

/// Whether a value must be quoted in the alias file: it holds a space or a
/// quote character.
pub open spec fn needs_quotes(value: Seq<char>) -> bool {
    value.contains(' ') || value.contains('\'') || value.contains('"')
}

/// `value` with each single quote replaced by `'\''`.
pub open spec fn escape_quotes(value: Seq<char>) -> Seq<char>
    decreases value.len(),
{
    if value.len() == 0 {
        Seq::empty()
    } else if value.last() == '\'' {
        escape_quotes(value.drop_last()) + seq!['\'', '\\', '\'', '\'']
    } else {
        escape_quotes(value.drop_last()).push(value.last())
    }
}

/// The form in which a value stands in the alias file.
pub open spec fn stored_value(value: Seq<char>) -> Seq<char> {
    if needs_quotes(value) {
        seq!['\''] + escape_quotes(value) + seq!['\'']
    } else {
        value
    }
}

/// The line of the alias file that defines `name` as `value`.
pub open spec fn stored_line(name: Seq<char>, value: Seq<char>) -> Seq<char> {
    "alias "@ + name + seq!['='] + stored_value(value)
}

/// Whether `name` can be kept in the alias file: it is not empty and holds
/// neither `=` nor white space.
pub open spec fn storable_name(name: Seq<char>) -> bool {
    &&& name.len() > 0
    &&& forall|i: int| 0 <= i < name.len() ==> #[trigger] name[i] != '=' && !is_space(name[i])
}

/// Whether `value` can be kept in the alias file: it neither starts nor ends
/// with white space.
pub open spec fn storable_value(value: Seq<char>) -> bool {
    value.len() > 0 ==> !is_space(value.first()) && !is_space(value.last())
}

/// Reading undoes escaping: where `s` holds the escaped form of `value` from
/// position `from` on, reading a single-quoted value there comes out after
/// the escaped form with `value` added to what was read.
pub proof fn lemma_unquote_escaped(
    s: Seq<char>,
    from: int,
    value: Seq<char>,
    out: Seq<char>,
)
    requires
        0 <= from,
        from + escape_quotes(value).len() <= s.len(),
        s.subrange(from, from + escape_quotes(value).len()) == escape_quotes(value),
    ensures
        unquote_from(s, from, out) == unquote_from(
            s,
            from + escape_quotes(value).len(),
            out + value,
        ),
    decreases value.len(),
{
    let whole = escape_quotes(value);
    if value.len() == 0 {
        assert(out + value =~= out);
    } else {
        let shorter = value.drop_last();
        let head = escape_quotes(shorter);
        let at = from + head.len();
        assert(s.subrange(from, at) =~= head) by {
            assert forall|i: int| 0 <= i < head.len() implies s.subrange(from, at)[i] == head[i] by {
                assert(s.subrange(from, from + whole.len())[i] == whole[i]);
            }
        }
        lemma_unquote_escaped(s, from, shorter, out);
        assert(out + shorter + seq![value.last()] =~= out + value);
        if value.last() == '\'' {
            assert(whole == head + seq!['\'', '\\', '\'', '\'']);
            assert(s.subrange(from, from + whole.len())[head.len() as int] == '\'');
            assert(s.subrange(from, from + whole.len())[head.len() as int + 1] == '\\');
            assert(s.subrange(from, from + whole.len())[head.len() as int + 2] == '\'');
            assert(s.subrange(from, from + whole.len())[head.len() as int + 3] == '\'');
            assert(is_escaped_quote(s, at));
            assert((out + shorter).push('\'') =~= out + value);
        } else {
            assert(whole == head.push(value.last()));
            assert(s.subrange(from, from + whole.len())[head.len() as int] == value.last());
            assert(!is_escaped_quote(s, at));
            assert((out + shorter).push(value.last()) =~= out + value);
        }
    }
}

/// The text that the alias file holds after `alias ` for a name and a value
/// defines that name as that value.
pub proof fn lemma_definition_round_trip(name: Seq<char>, value: Seq<char>)
    requires
        storable_name(name),
        storable_value(value),
    ensures
        definition_spec(name + seq!['='] + stored_value(value)) == Some((name, value)),
{
    let stored = stored_value(value);
    let rest = name + seq!['='] + stored;
    let eq = name.len() as int;
    assert(rest[eq] == '=');
    assert forall|i: int| 0 <= i < eq implies #[trigger] rest[i] != '=' by {
        assert(rest[i] == name[i]);
    }
    lemma_span_until_first(rest, 0, eq, '=');
    assert(rest.take(eq) =~= name);
    lemma_trim_nothing(name);
    let start = eq + 1;
    lemma_trim_nothing(value);
    if needs_quotes(value) {
        let escaped = escape_quotes(value);
        assert(rest =~= name + seq!['='] + seq!['\''] + escaped + seq!['\'']);
        assert(rest[start] == '\'');
        assert(rest.subrange(start + 1, start + 1 + escaped.len()) =~= escaped);
        lemma_unquote_escaped(rest, start + 1, value, Seq::empty());
        let close = start + 1 + escaped.len();
        assert(rest[close] == '\'');
        assert(close + 1 == rest.len());
        assert(!is_escaped_quote(rest, close));
        assert(Seq::<char>::empty() + value =~= value);
        assert(unquote_from(rest, close, value) == value);
    } else {
        assert(rest =~= name + seq!['='] + value);
        if value.len() > 0 {
            assert(rest[start] == value[0]);
            assert(value.contains(value[0]));
        }
        assert(rest.skip(start) =~= value);
    }
}

/// The line that the alias file holds for a name and a value stays as it is
/// when it is trimmed, and starts with `alias `.
pub proof fn lemma_stored_line_shape(name: Seq<char>, value: Seq<char>)
    requires
        storable_name(name),
        storable_value(value),
    ensures
        trim(stored_line(name, value)) == stored_line(name, value),
        stored_line(name, value).first() == 'a',
        starts_with(stored_line(name, value), "alias "@),
        stored_line(name, value).skip("alias "@.len() as int) == name + seq!['='] + stored_value(
            value,
        ),
{
    reveal_strlit("alias ");
    let lead = "alias "@;
    assert(lead =~= seq!['a', 'l', 'i', 'a', 's', ' ']);
    let stored = stored_value(value);
    let line = stored_line(name, value);
    let rest = name + seq!['='] + stored;
    assert(line =~= lead + rest);
    assert(line.first() == 'a');
    assert(!is_space(line.last())) by {
        if stored.len() == 0 {
            assert(line.last() == '=');
        } else if needs_quotes(value) {
            assert(line.last() == '\'');
        } else {
            assert(line.last() == value.last());
        }
    }
    lemma_trim_nothing(line);
    assert(line.take(lead.len() as int) =~= lead);
    assert(line.skip(lead.len() as int) =~= rest);
}

/// Saving and loading an alias gives the alias back: the line that the alias
/// file holds for a name and a value defines that name as that value.
pub proof fn lemma_stored_alias_round_trip(name: Seq<char>, value: Seq<char>)
    requires
        storable_name(name),
        storable_value(value),
    ensures
        stored_alias(stored_line(name, value)) == Some((name, value)),
{
    lemma_stored_line_shape(name, value);
    lemma_definition_round_trip(name, value);
}

/// The lines with which the alias file starts.
pub open spec fn file_header() -> Seq<Seq<char>> {
    seq!["# Squish aliases - auto-generated"@, "# Format: alias name='value'"@, ""@]
}

/// The lines of the alias file for the pairs of `entries`: the header, then
/// one line for each pair, in order.
pub open spec fn file_lines(entries: Seq<(Seq<char>, Seq<char>)>) -> Seq<Seq<char>> {
    file_header() + entries.map_values(|e: (Seq<char>, Seq<char>)| stored_line(e.0, e.1))
}

/// The table after the lines of an alias file were taken in, one after the
/// other: each line that defines an alias sets it, any other line is passed
/// over.
pub open spec fn loaded(table: Map<Seq<char>, Seq<char>>, lines: Seq<Seq<char>>) -> Map<
    Seq<char>,
    Seq<char>,
>
    decreases lines.len(),
{
    if lines.len() == 0 {
        table
    } else {
        let before = loaded(table, lines.drop_last());
        match stored_alias(lines.last()) {
            Some((name, value)) => before.insert(name, value),
            None => before,
        }
    }
}

/// Whether every pair of `entries` can be kept in the alias file.
pub open spec fn storable(entries: Seq<(Seq<char>, Seq<char>)>) -> bool {
    forall|i: int|
        0 <= i < entries.len() ==> storable_name((#[trigger] entries[i]).0) && storable_value(
            entries[i].1,
        )
}

/// Taking in one more line is one more step of loading.
pub proof fn lemma_loaded_push(
    table: Map<Seq<char>, Seq<char>>,
    lines: Seq<Seq<char>>,
    line: Seq<char>,
)
    ensures
        loaded(table, lines.push(line)) == match stored_alias(line) {
            Some((name, value)) => loaded(table, lines).insert(name, value),
            None => loaded(table, lines),
        },
{
    assert(lines.push(line).drop_last() =~= lines);
    assert(lines.push(line).last() == line);
}

/// A pair with a new name at the end of a table is one more entry of its
/// mapping.
pub proof fn lemma_table_push(
    entries: Seq<(Seq<char>, Seq<char>)>,
    name: Seq<char>,
    value: Seq<char>,
)
    requires
        unique_names(entries.push((name, value))),
    ensures
        table_of(entries.push((name, value))) == table_of(entries).insert(name, value),
{
    let after = entries.push((name, value));
    assert forall|i: int, j: int|
        0 <= i < entries.len() && 0 <= j < entries.len() && i != j implies (
    #[trigger] entries[i]).0 != (#[trigger] entries[j]).0 by {
        assert(after[i] == entries[i]);
        assert(after[j] == entries[j]);
    }
    assert forall|k: Seq<char>| has_name(after, k) == (k == name || has_name(entries, k)) by {
        if has_name(entries, k) {
            let j = position_of(entries, k);
            assert(after[j].0 == k);
        }
        if k == name {
            assert(after[entries.len() as int].0 == k);
        }
        if has_name(after, k) {
            let j = position_of(after, k);
            if j < entries.len() {
                assert(entries[j].0 == k);
            }
        }
    }
    assert forall|k: Seq<char>| has_name(after, k) implies table_of(after)[k] == (if k == name {
        value
    } else {
        table_of(entries)[k]
    }) by {
        let a = position_of(after, k);
        if k == name {
            if a < entries.len() {
                assert(after[a] == entries[a]);
                assert(after[a].0 != after[entries.len() as int].0);
            }
        } else {
            assert(entries[a].0 == k);
            let b = position_of(entries, k);
            assert(after[b] == entries[b]);
            assert(a == b);
        }
    }
    assert(table_of(after) =~= table_of(entries).insert(name, value));
}

/// Saving then loading is the identity: the lines of the alias file for a
/// table, taken into an empty table, give the table back, where every name
/// and value of it can be kept in the file.
pub proof fn lemma_saved_table_loads(entries: Seq<(Seq<char>, Seq<char>)>)
    requires
        unique_names(entries),
        storable(entries),
    ensures
        loaded(Map::empty(), file_lines(entries)) == table_of(entries),
    decreases entries.len(),
{
    let nothing = Map::<Seq<char>, Seq<char>>::empty();
    if entries.len() == 0 {
        reveal_strlit("# Squish aliases - auto-generated");
        reveal_strlit("# Format: alias name='value'");
        reveal_strlit("");
        let first = "# Squish aliases - auto-generated"@;
        let second = "# Format: alias name='value'"@;
        let third = ""@;
        assert(first.first() == '#' && first.last() == 'd');
        assert(second.first() == '#' && second.last() == '\'');
        lemma_trim_nothing(first);
        lemma_trim_nothing(second);
        lemma_trim_nothing(third);
        assert(stored_alias(first) is None);
        assert(stored_alias(second) is None);
        assert(stored_alias(third) is None);
        let none = Seq::<Seq<char>>::empty();
        assert(file_lines(entries) =~= none.push(first).push(second).push(third));
        lemma_loaded_push(nothing, none, first);
        lemma_loaded_push(nothing, none.push(first), second);
        lemma_loaded_push(nothing, none.push(first).push(second), third);
        assert(table_of(entries) =~= nothing);
    } else {
        let shorter = entries.drop_last();
        let pair = entries.last();
        assert(entries =~= shorter.push(pair));
        assert forall|i: int, j: int|
            0 <= i < shorter.len() && 0 <= j < shorter.len() && i != j implies (
        #[trigger] shorter[i]).0 != (#[trigger] shorter[j]).0 by {
            assert(shorter[i] == entries[i]);
            assert(shorter[j] == entries[j]);
        }
        assert forall|i: int| 0 <= i < shorter.len() implies storable_name(
            (#[trigger] shorter[i]).0,
        ) && storable_value(shorter[i].1) by {
            assert(shorter[i] == entries[i]);
        }
        lemma_saved_table_loads(shorter);
        assert(file_lines(entries) =~= file_lines(shorter).push(stored_line(pair.0, pair.1)));
        lemma_loaded_push(nothing, file_lines(shorter), stored_line(pair.0, pair.1));
        assert(storable_name(entries[entries.len() - 1].0));
        lemma_stored_alias_round_trip(pair.0, pair.1);
        lemma_table_push(shorter, pair.0, pair.1);
    }
}

impl AliasManager {
    /// Reads the name and the value out of the text that follows `alias `.
    pub fn parse_alias_line(line: &str) -> (r: Option<(String, String)>)
        ensures
            match r {
                Some((name, value)) => definition_spec(line@) == Some((name@, value@)),
                None => definition_spec(line@) is None,
            },
    {
        let chars = chars_of(line);
        let eq = find_char(&chars, 0, '=');
        if eq == 0 {
            return None;
        }
        let raw_name = string_of(&chars, 0, eq);
        assert(chars@.subrange(0, eq as int) =~= chars@.take(eq as int));
        let name = trim_text(raw_name.as_str());
        let start: usize = if eq < chars.len() {
            eq + 1
        } else {
            eq
        };
        let raw_value = if start < chars.len() && chars[start] == '\'' {
            let mut raw = String::new();
            let mut j: usize = start + 1;
            let mut closed = false;
            while j < chars.len() && !closed
                invariant
                    start < j,
                    unquote_from(chars@, start + 1, Seq::empty()) == if closed {
                        raw@
                    } else {
                        unquote_from(chars@, j as int, raw@)
                    },
                decreases chars.len() - j, if closed { 0int } else { 1int },
            {
                if chars[j] != '\'' {
                    push_char(&mut raw, chars[j]);
                    j += 1;
                } else if chars.len() - j > 3 && chars[j + 1] == '\\' && chars[j + 2] == '\''
                    && chars[j + 3] == '\'' {
                    push_char(&mut raw, '\'');
                    j += 4;
                } else {
                    closed = true;
                }
            }
            raw
        } else if start < chars.len() && chars[start] == '"' {
            let close = find_char(&chars, start + 1, '"');
            string_of(&chars, start + 1, close)
        } else {
            assert(chars@.subrange(start as int, chars.len() as int) =~= chars@.skip(start as int));
            string_of(&chars, start, chars.len())
        };
        let value = trim_text(raw_value.as_str());
        Some((name, value))
    }

    /// Takes in one line of the alias file. Says whether the line defined an
    /// alias; a line that defines none leaves the table as it is.
    pub fn load_line(&mut self, line: &str) -> (defined: bool)
        requires
            old(self).well_formed(),
        ensures
            final(self).well_formed(),
            match stored_alias(line@) {
                Some((name, value)) => defined && final(self)@ == old(self)@.insert(name, value),
                None => !defined && final(self)@ == old(self)@,
            },
    {
        let trimmed = trim_text(line);
        let chars = chars_of(trimmed.as_str());
        if chars.len() == 0 || chars[0] == '#' {
            return false;
        }
        assert(chars@.skip(0) =~= chars@);
        if !has_prefix_at(&chars, 0, "alias ") {
            return false;
        }
        let prefix = chars_of("alias ");
        assert(chars@.subrange(prefix.len() as int, chars.len() as int) =~= chars@.skip(
            prefix.len() as int,
        ));
        let rest = string_of(&chars, prefix.len(), chars.len());
        match AliasManager::parse_alias_line(rest.as_str()) {
            Some((name, value)) => {
                self.set(name, value);
                true
            },
            None => false,
        }
    }

    /// The line of the alias file that defines `name` as `value`: a value
    /// that holds a space or a quote character is put in single quotes, with
    /// each single quote inside it written as `'\''`.
    pub fn format_alias(name: &str, value: &str) -> (line: String)
        ensures
            line@ == stored_line(name@, value@),
    {
        let chars = chars_of(value);
        let mut quoted = false;
        let mut i: usize = 0;
        while i < chars.len()
            invariant
                i <= chars.len(),
                chars@ == value@,
                quoted == exists|j: int|
                    0 <= j < i && (chars@[j] == ' ' || chars@[j] == '\'' || chars@[j] == '"'),
            decreases chars.len() - i,
        {
            if chars[i] == ' ' || chars[i] == '\'' || chars[i] == '"' {
                quoted = true;
            }
            i += 1;
        }
        assert(quoted == needs_quotes(value@)) by {
            if needs_quotes(value@) {
                if value@.contains(' ') {
                    let j = choose|j: int| 0 <= j < value@.len() && value@[j] == ' ';
                    assert(chars@[j] == ' ');
                } else if value@.contains('\'') {
                    let j = choose|j: int| 0 <= j < value@.len() && value@[j] == '\'';
                    assert(chars@[j] == '\'');
                } else {
                    let j = choose|j: int| 0 <= j < value@.len() && value@[j] == '"';
                    assert(chars@[j] == '"');
                }
            }
        }
        let mut line = "alias ".to_owned();
        line.append(name);
        push_char(&mut line, '=');
        let ghost head = line@;
        if quoted {
            push_char(&mut line, '\'');
            let mut k: usize = 0;
            assert(chars@.take(0) =~= Seq::<char>::empty());
            assert(head.push('\'') + Seq::<char>::empty() =~= head.push('\''));
            while k < chars.len()
                invariant
                    k <= chars.len(),
                    line@ == head.push('\'') + escape_quotes(chars@.take(k as int)),
                decreases chars.len() - k,
            {
                proof {
                    assert(chars@.take(k + 1).drop_last() =~= chars@.take(k as int));
                    assert(chars@.take(k + 1).last() == chars@[k as int]);
                }
                let ghost sofar = line@;
                let ghost done = escape_quotes(chars@.take(k as int));
                if chars[k] == '\'' {
                    push_char(&mut line, '\'');
                    push_char(&mut line, '\\');
                    push_char(&mut line, '\'');
                    push_char(&mut line, '\'');
                    assert(line@ =~= head.push('\'') + (done + seq!['\'', '\\', '\'', '\'']));
                } else {
                    push_char(&mut line, chars[k]);
                    assert(line@ =~= head.push('\'') + done.push(chars@[k as int]));
                }
                k += 1;
            }
            assert(chars@.take(k as int) =~= chars@);
            push_char(&mut line, '\'');
            assert(line@ =~= "alias "@ + name@ + seq!['='] + (seq!['\''] + escape_quotes(value@)
                + seq!['\'']));
        } else {
            line.append(value);
        }
        line
    }
}

impl AliasManager {
    /// The lines of the alias file for this table: the header, then one line
    /// for each alias, in the order of the names.
    pub fn save_lines(&self) -> (lines: Vec<String>)
        requires
            self.well_formed(),
        ensures
            texts(lines@) == file_lines(self.entries()),
            lines.len() == 3 + self.entries().len(),
            texts(lines@).take(3) == file_header(),
            sorted_names(self.entries()),
            forall|i: int|
                0 <= i < self.entries().len() ==> (#[trigger] lines@[3 + i])@ == stored_line(
                    self.entries()[i].0,
                    self.entries()[i].1,
                ),
    {
        let mut lines: Vec<String> = Vec::new();
        lines.push("# Squish aliases - auto-generated".to_owned());
        lines.push("# Format: alias name='value'".to_owned());
        lines.push("".to_owned());
        assert(texts(lines@).take(3) =~= file_header());
        let mut i: usize = 0;
        while i < self.aliases.len()
            invariant
                i <= self.aliases.len(),
                lines.len() == 3 + i,
                texts(lines@).take(3) == file_header(),
                forall|j: int|
                    0 <= j < i ==> (#[trigger] lines@[3 + j])@ == stored_line(
                        self.entries()[j].0,
                        self.entries()[j].1,
                    ),
            decreases self.aliases.len() - i,
        {
            assert(self.entries()[i as int] == (self.aliases@[i as int].0@, self.aliases@[i as int].1@));
            let line = AliasManager::format_alias(
                self.aliases[i].0.as_str(),
                self.aliases[i].1.as_str(),
            );
            let ghost before = lines@;
            lines.push(line);
            proof {
                assert(texts(lines@).take(3) =~= texts(before).take(3));
                assert forall|j: int| 0 <= j < i + 1 implies (#[trigger] lines@[3 + j])@
                    == stored_line(self.entries()[j].0, self.entries()[j].1) by {
                    if j < i {
                        assert(lines@[3 + j] == before[3 + j]);
                    }
                }
            }
            i += 1;
        }
        proof {
            let expected = file_lines(self.entries());
            assert(texts(lines@).len() == expected.len());
            assert forall|j: int| 0 <= j < expected.len() implies texts(lines@)[j] == expected[j] by {
                if j < 3 {
                    assert(texts(lines@).take(3)[j] == texts(lines@)[j]);
                } else {
                    assert(lines@[3 + (j - 3)]@ == stored_line(
                        self.entries()[j - 3].0,
                        self.entries()[j - 3].1,
                    ));
                }
            }
            assert(texts(lines@) =~= expected);
        }
        lines
    }
}

} // verus!
