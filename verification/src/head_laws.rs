//! What a head that was written out gives when it is read back.

use crate::lines::{free_of, lemma_lines_join, lemma_words_last, lemma_words_word, no_whitespace};
use crate::text::lines;
use crate::structs::{
    add_line, add_lines, as_map, field_line, field_lines, is_host, key_position, lemma_key_position,
    lemma_key_position_is, lookup, parse_head, put, select, unique_keys, wire_order, Field,
    HeaderView, Method, RequestLineView,
};
use crate::text::{
    colon_space, contains, is_whitespace, lemma_find, lemma_find_unique, matches_at, split_once,
    words,
};
use vstd::prelude::*;

verus! {

/// Whether a field can stand on a line of its own and be found there again:
/// no line feed in its name or value, and no colon with a space after it in
/// its name.
pub open spec fn fits_line(field: Field) -> bool {
    free_of(field.0, '\n') && free_of(field.1, '\n') && !contains(field.0, colon_space())
}

/// Whether each of `fields` fits its line.
pub open spec fn fields_fit(fields: Seq<Field>) -> bool {
    forall|i: int| 0 <= i < fields.len() ==> fits_line(#[trigger] fields[i])
}

impl RequestLineView {
    /// Whether the request line is one line: no line feed in the path or in
    /// the version.
    pub open spec fn is_line(self) -> bool {
        free_of(self.path, '\n') && free_of(self.version, '\n')
    }

    /// Whether the path and the version are words: not empty, and without
    /// whitespace.
    pub open spec fn is_words(self) -> bool {
        self.path.len() > 0 && no_whitespace(self.path) && self.version.len() > 0 && no_whitespace(
            self.version,
        )
    }
}

impl HeaderView {
    /// Whether the first line of the head on the wire is read for what it
    /// is. Without a request line, the line of the first field must not be
    /// three words, which would be read as a request line. A request line
    /// must be three words, or else give no field, or one whose name is the
    /// name of a field of the head, which then sets the value anew.
    pub open spec fn first_line_reads_well(self) -> bool {
        match self.request_line {
            None => self.fields.len() > 0 ==> words(self.head_lines()[0]).len() != 3,
            Some(line) => words(line.text()).len() == 3 || match split_once(
                line.text(),
                colon_space(),
            ) {
                Some((name, _)) => lookup(self.fields, name) is Some,
                None => true,
            },
        }
    }
}

/// The line of a field splits into its name and its value again.
pub proof fn lemma_split_field(field: Field)
    requires
        !contains(field.0, colon_space()),
    ensures
        split_once(field_line(field), colon_space()) == Some(field),
{
    let name = field.0;
    let line = field_line(field);
    let at = name.len() as int;
    lemma_find(name, colon_space());
    assert(line.subrange(at, at + 2) =~= colon_space());
    assert forall|j: int| 0 <= j < at implies !matches_at(line, colon_space(), j) by {
        if j + 2 <= at {
            assert(!matches_at(name, colon_space(), j));
            assert(name.subrange(j, j + 2) =~= line.subrange(j, j + 2));
        } else {
            assert(line.subrange(j, j + 2)[1] == ':');
            assert(colon_space()[1] == ' ');
        }
    }
    lemma_find_unique(line, colon_space(), at);
    assert(line.take(at) =~= field.0);
    assert(line.skip(at + 2) =~= field.1);
}

/// The lines of fields with distinct names that fit their lines give those
/// fields again, in their order.
pub proof fn lemma_add_field_lines(fields: Seq<Field>)
    requires
        unique_keys(fields),
        fields_fit(fields),
    ensures
        add_lines(Seq::empty(), field_lines(fields), colon_space(), false) == fields,
    decreases fields.len(),
{
    if fields.len() == 0 {
        assert(field_lines(fields) =~= Seq::<Seq<char>>::empty());
    } else {
        let front = fields.drop_last();
        let last = fields.last();
        assert(field_lines(fields).drop_last() =~= field_lines(front));
        assert(field_lines(fields).last() == field_line(last));
        assert forall|i: int| 0 <= i < front.len() implies fits_line(#[trigger] front[i]) by {
            assert(front[i] == fields[i]);
        }
        assert(unique_keys(front)) by {
            assert forall|i: int, j: int| 0 <= i < j < front.len() implies front[i].0
                != front[j].0 by {
                assert(front[i] == fields[i] && front[j] == fields[j]);
            }
        }
        lemma_add_field_lines(front);
        assert(fits_line(fields[fields.len() - 1]));
        lemma_split_field(last);
        assert forall|j: int| 0 <= j < front.len() implies front[j].0 != last.0 by {
            assert(front[j] == fields[j]);
        }
        lemma_key_position_is(front, last.0, front.len() as int);
        assert(put(front, last.0, last.1) =~= fields);
    }
}

/// The fields that `select` keeps are fields of `fields` of the kind asked
/// for, every such field is kept, and distinct names stay distinct.
pub proof fn lemma_select(fields: Seq<Field>, hosts: bool)
    ensures
        forall|j: int|
            0 <= j < select(fields, hosts).len() ==> fields.contains(
                #[trigger] select(fields, hosts)[j],
            ) && is_host(select(fields, hosts)[j]) == hosts,
        forall|i: int|
            0 <= i < fields.len() && is_host(#[trigger] fields[i]) == hosts ==> select(
                fields,
                hosts,
            ).contains(fields[i]),
        unique_keys(fields) ==> unique_keys(select(fields, hosts)),
    decreases fields.len(),
{
    if fields.len() == 0 {
    } else {
        let front = fields.drop_last();
        let last = fields.last();
        let kept = select(front, hosts);
        let out = select(fields, hosts);
        lemma_select(front, hosts);
        assert forall|j: int| 0 <= j < out.len() implies fields.contains(#[trigger] out[j])
            && is_host(out[j]) == hosts by {
            if j < kept.len() {
                assert(out[j] == kept[j]);
                assert(front.contains(kept[j]));
                let i = choose|i: int| 0 <= i < front.len() && front[i] == kept[j];
                assert(fields[i] == kept[j]);
            } else {
                assert(out[j] == last);
                assert(fields[fields.len() - 1] == last);
            }
        }
        assert forall|i: int| 0 <= i < fields.len() && is_host(#[trigger] fields[i])
            == hosts implies out.contains(fields[i]) by {
            if i < front.len() {
                assert(front[i] == fields[i]);
                assert(kept.contains(front[i]));
                let j = choose|j: int| 0 <= j < kept.len() && kept[j] == front[i];
                assert(out[j] == fields[i]);
            } else {
                assert(out[out.len() - 1] == fields[i]);
            }
        }
        if unique_keys(fields) {
            assert(unique_keys(front)) by {
                assert forall|i: int, j: int| 0 <= i < j < front.len() implies front[i].0
                    != front[j].0 by {
                    assert(front[i] == fields[i] && front[j] == fields[j]);
                }
            }
            assert forall|i: int, j: int| 0 <= i < j < out.len() implies out[i].0 != out[j].0 by {
                if j < kept.len() {
                    assert(out[i] == kept[i] && out[j] == kept[j]);
                } else {
                    assert(out[i] == kept[i]);
                    assert(front.contains(kept[i]));
                    let k = choose|k: int| 0 <= k < front.len() && front[k] == kept[i];
                    assert(fields[k] == kept[i]);
                    assert(fields[fields.len() - 1] == out[j]);
                }
            }
        }
    }
}

/// With distinct names, the value found for a name is that of the field
/// that has the name.
pub proof fn lemma_lookup_unique(fields: Seq<Field>, field: Field)
    requires
        unique_keys(fields),
        fields.contains(field),
    ensures
        lookup(fields, field.0) == Some(field.1),
{
    let i = choose|i: int| 0 <= i < fields.len() && fields[i] == field;
    lemma_key_position(fields, field.0);
    let p = key_position(fields, field.0) as int;
    if p > i {
        assert(fields[i].0 != field.0);
    }
    if p < i {
        assert(fields[p].0 != fields[i].0);
    }
}

/// The fields in wire order are the same fields: their names stay distinct
/// and each name has the value that it had.
pub proof fn lemma_wire_order(fields: Seq<Field>)
    requires
        unique_keys(fields),
    ensures
        unique_keys(wire_order(fields)),
        forall|field: Field| wire_order(fields).contains(field) <==> fields.contains(field),
        forall|key: Seq<char>| lookup(wire_order(fields), key) == lookup(fields, key),
        as_map(wire_order(fields)) == as_map(fields),
{
    let hosts = select(fields, true);
    let others = select(fields, false);
    let out = wire_order(fields);
    lemma_select(fields, true);
    lemma_select(fields, false);
    assert forall|i: int, j: int| 0 <= i < j < out.len() implies out[i].0 != out[j].0 by {
        if j < hosts.len() {
            assert(out[i] == hosts[i] && out[j] == hosts[j]);
        } else if i >= hosts.len() {
            assert(out[i] == others[i - hosts.len()] && out[j] == others[j - hosts.len()]);
        } else {
            assert(out[i] == hosts[i] && out[j] == others[j - hosts.len()]);
            assert(is_host(hosts[i]));
            assert(!is_host(others[j - hosts.len()]));
        }
    }
    assert forall|field: Field| out.contains(field) <==> fields.contains(field) by {
        if out.contains(field) {
            let j = choose|j: int| 0 <= j < out.len() && out[j] == field;
            if j < hosts.len() {
                assert(out[j] == hosts[j]);
                assert(fields.contains(hosts[j]));
            } else {
                assert(out[j] == others[j - hosts.len()]);
                assert(fields.contains(others[j - hosts.len()]));
            }
        }
        if fields.contains(field) {
            let i = choose|i: int| 0 <= i < fields.len() && fields[i] == field;
            if is_host(fields[i]) {
                assert(hosts.contains(fields[i]));
                let j = choose|j: int| 0 <= j < hosts.len() && hosts[j] == field;
                assert(out[j] == field);
            } else {
                assert(others.contains(fields[i]));
                let j = choose|j: int| 0 <= j < others.len() && others[j] == field;
                assert(out[hosts.len() + j] == field);
            }
        }
    }
    assert forall|key: Seq<char>| lookup(out, key) == lookup(fields, key) by {
        lemma_key_position(out, key);
        lemma_key_position(fields, key);
        let p = key_position(out, key) as int;
        let q = key_position(fields, key) as int;
        if p < out.len() {
            assert(out.contains(out[p]));
            assert(fields.contains(out[p]));
            lemma_lookup_unique(fields, out[p]);
        } else if q < fields.len() {
            assert(fields.contains(fields[q]));
            assert(out.contains(fields[q]));
            lemma_lookup_unique(out, fields[q]);
        }
    }
    assert(as_map(out) =~= as_map(fields));
}

/// The text of a request line that is one line holds no line feed, and is
/// not empty.
pub proof fn lemma_request_line_text(line: RequestLineView)
    requires
        line.is_line(),
    ensures
        free_of(line.text(), '\n'),
        line.text().len() > 0,
{
    reveal_strlit("GET");
    reveal_strlit("POST");
    let name = line.method.name();
    let text = line.text();
    assert(free_of(name, '\n'));
    assert forall|i: int| 0 <= i < text.len() implies text[i] != '\n' by {
        if i < name.len() {
            assert(text[i] == name[i]);
        } else if i == name.len() {
            assert(text[i] == ' ');
        } else if i < name.len() + 1 + line.path.len() {
            assert(text[i] == line.path[i - name.len() - 1]);
        } else if i == name.len() + 1 + line.path.len() {
            assert(text[i] == ' ');
        } else {
            assert(text[i] == line.version[i - name.len() - 2 - line.path.len()]);
        }
    }
}

/// A request line made of words is one line and reads as three words: the
/// method's name, the path and the version.
pub proof fn lemma_request_line_words(line: RequestLineView)
    requires
        line.is_words(),
    ensures
        line.is_line(),
        words(line.text()) == seq![line.method.name(), line.path, line.version],
        Method::named(line.method.name()) == Some(line.method),
{
    reveal_strlit("GET");
    reveal_strlit("POST");
    let name = line.method.name();
    assert(name.len() > 0 && no_whitespace(name));
    assert("GET"@.len() != "POST"@.len());
    let tail = line.path + seq![' '] + line.version;
    assert(line.text() =~= name + seq![' '] + tail);
    lemma_words_word(name, tail);
    lemma_words_word(line.path, line.version);
    lemma_words_last(line.version);
    assert(seq![name] + (seq![line.path] + seq![line.version]) =~= seq![
        name,
        line.path,
        line.version,
    ]);
    assert(is_whitespace('\n'));
}

/// The line of a field that fits its line is one line, and not empty.
pub proof fn lemma_field_line(field: Field)
    requires
        fits_line(field),
    ensures
        free_of(field_line(field), '\n'),
        field_line(field).len() > 0,
{
    let line = field_line(field);
    assert forall|i: int| 0 <= i < line.len() implies line[i] != '\n' by {
        if i < field.0.len() {
            assert(line[i] == field.0[i]);
        } else if i < field.0.len() + 2 {
            assert(line[i] == colon_space()[i - field.0.len()]);
        } else {
            assert(line[i] == field.1[i - field.0.len() - 2]);
        }
    }
}

/// The fields in wire order fit their lines if the fields do.
pub proof fn lemma_wire_order_fits(fields: Seq<Field>)
    requires
        unique_keys(fields),
        fields_fit(fields),
    ensures
        fields_fit(wire_order(fields)),
{
    let ordered = wire_order(fields);
    lemma_wire_order(fields);
    assert forall|i: int| 0 <= i < ordered.len() implies fits_line(#[trigger] ordered[i]) by {
        assert(ordered.contains(ordered[i]));
        assert(fields.contains(ordered[i]));
        let k = choose|k: int| 0 <= k < fields.len() && fields[k] == ordered[i];
        assert(fits_line(fields[k]));
    }
}

/// The text of a head has the lines of the head for its lines, where the
/// names are distinct, the fields fit their lines and the request line, if
/// there is one, is one line.
pub proof fn lemma_head_lines(head: HeaderView)
    requires
        unique_keys(head.fields),
        fields_fit(head.fields),
        head.request_line matches Some(line) ==> line.is_line(),
    ensures
        lines(head.text()) == head.head_lines(),
{
    let ordered = wire_order(head.fields);
    let all = head.head_lines();
    lemma_wire_order_fits(head.fields);
    let first: Seq<Seq<char>> = match head.request_line {
        Some(line) => seq![line.text()],
        None => Seq::empty(),
    };
    assert forall|i: int| 0 <= i < all.len() implies free_of(#[trigger] all[i], '\n')
        && all[i].len() > 0 by {
        if i < first.len() {
            lemma_request_line_text(head.request_line->0);
            assert(all[i] == first[i]);
        } else {
            assert(all[i] == field_line(ordered[i - first.len()]));
            lemma_field_line(ordered[i - first.len()]);
        }
    }
    lemma_lines_join(all);
}

/// Taking the fields of lines in two parts is taking them of all the lines.
pub proof fn lemma_add_lines_parts(
    fields: Seq<Field>,
    first: Seq<Seq<char>>,
    second: Seq<Seq<char>>,
    sep: Seq<char>,
    trimmed: bool,
)
    ensures
        add_lines(fields, first + second, sep, trimmed) == add_lines(
            add_lines(fields, first, sep, trimmed),
            second,
            sep,
            trimmed,
        ),
    decreases second.len(),
{
    if second.len() == 0 {
        assert(first + second =~= first);
    } else {
        assert((first + second).drop_last() =~= first + second.drop_last());
        assert((first + second).last() == second.last());
        lemma_add_lines_parts(fields, first, second.drop_last(), sep, trimmed);
    }
}

/// One field more at the end is found by its name only.
pub proof fn lemma_lookup_push(fields: Seq<Field>, field: Field, key: Seq<char>)
    requires
        forall|i: int| 0 <= i < fields.len() ==> fields[i].0 != field.0,
    ensures
        lookup(fields.push(field), key) == if key == field.0 {
            Some(field.1)
        } else {
            lookup(fields, key)
        },
{
    lemma_key_position_is(fields, field.0, fields.len() as int);
    assert(put(fields, field.0, field.1) =~= fields.push(field));
    crate::structs::lemma_put_lookup(fields, field.0, field.1, key);
}

/// After the lines of fields with distinct names that fit their lines, a
/// name has the value of its field, and a name that none of them has keeps
/// the value that it had before.
pub proof fn lemma_lines_over(before: Seq<Field>, fields: Seq<Field>, key: Seq<char>)
    requires
        unique_keys(fields),
        fields_fit(fields),
    ensures
        lookup(add_lines(before, field_lines(fields), colon_space(), false), key) == if lookup(
            fields,
            key,
        ) is Some {
            lookup(fields, key)
        } else {
            lookup(before, key)
        },
    decreases fields.len(),
{
    if fields.len() == 0 {
        assert(field_lines(fields) =~= Seq::<Seq<char>>::empty());
    } else {
        let front = fields.drop_last();
        let last = fields.last();
        assert(field_lines(fields).drop_last() =~= field_lines(front));
        assert(field_lines(fields).last() == field_line(last));
        assert forall|i: int| 0 <= i < front.len() implies fits_line(#[trigger] front[i]) by {
            assert(front[i] == fields[i]);
        }
        assert(unique_keys(front)) by {
            assert forall|i: int, j: int| 0 <= i < j < front.len() implies front[i].0
                != front[j].0 by {
                assert(front[i] == fields[i] && front[j] == fields[j]);
            }
        }
        lemma_lines_over(before, front, key);
        assert(fits_line(fields[fields.len() - 1]));
        lemma_split_field(last);
        let so_far = add_lines(before, field_lines(front), colon_space(), false);
        crate::structs::lemma_put_lookup(so_far, last.0, last.1, key);
        assert forall|j: int| 0 <= j < front.len() implies front[j].0 != last.0 by {
            assert(front[j] == fields[j]);
        }
        lemma_lookup_push(front, last, key);
        assert(front.push(last) =~= fields);
    }
}

/// A head that is written out and read back has the fields that it had, in
/// wire order, and the request line that it had.
///
/// This holds of a head whose names are distinct, whose fields fit their
/// lines and whose request line, if it has one, is made of words. Where it
/// has none, the line of its first field in wire order must not be three
/// words, for that would be read as a request line.
pub proof fn lemma_head_read_back(head: HeaderView)
    requires
        unique_keys(head.fields),
        fields_fit(head.fields),
        head.request_line matches Some(line) ==> line.is_words(),
        head.request_line is None ==> head.first_line_reads_well(),
    ensures
        parse_head(head.text()).request_line == head.request_line,
        parse_head(head.text()).fields == wire_order(head.fields),
{
    let ordered = wire_order(head.fields);
    let all = head.head_lines();
    lemma_wire_order(head.fields);
    lemma_wire_order_fits(head.fields);
    lemma_add_field_lines(ordered);
    match head.request_line {
        Some(line) => {
            lemma_request_line_words(line);
            lemma_head_lines(head);
            assert(all[0] == line.text());
            assert(all.skip(1) =~= field_lines(ordered));
        },
        None => {
            lemma_head_lines(head);
            assert(all =~= field_lines(ordered));
            if head.fields.len() == 0 {
                lemma_select(head.fields, true);
                lemma_select(head.fields, false);
            } else {
                assert(head.fields.contains(head.fields[0]));
                assert(ordered.contains(head.fields[0]));
            }
        },
    }
}

/// A head that is written out and read back has, as a mapping, the fields
/// that it had: each name has the value that it had, and no other name has
/// one.
///
/// This holds of a head whose names are distinct, in which no name or value
/// holds a line feed and no name holds a colon with a space after it, whose
/// request line, if it has one, is one line, and whose first line is read
/// for what it is: see `HeaderView::first_line_reads_well`.
pub proof fn lemma_head_round_trip(head: HeaderView)
    requires
        unique_keys(head.fields),
        fields_fit(head.fields),
        head.request_line matches Some(line) ==> line.is_line(),
        head.first_line_reads_well(),
    ensures
        as_map(parse_head(head.text()).fields) == as_map(head.fields),
{
    let ordered = wire_order(head.fields);
    let all = head.head_lines();
    let read = parse_head(head.text()).fields;
    lemma_wire_order(head.fields);
    lemma_wire_order_fits(head.fields);
    lemma_add_field_lines(ordered);
    lemma_head_lines(head);
    match head.request_line {
        Some(line) => {
            let rest = field_lines(ordered);
            assert(all[0] == line.text());
            assert(all.skip(1) =~= rest);
            if words(line.text()).len() == 3 {
                assert(read == ordered);
            } else {
                let none = Seq::<Field>::empty();
                let one = seq![line.text()];
                assert(all =~= one + rest);
                lemma_add_lines_parts(none, one, rest, colon_space(), false);
                assert(one.drop_last() =~= Seq::<Seq<char>>::empty());
                assert(one.last() == line.text());
                assert(add_lines(none, one.drop_last(), colon_space(), false) == none);
                let start = add_lines(none, one, colon_space(), false);
                assert(start == add_line(none, line.text(), colon_space(), false));
                assert(read == add_lines(start, rest, colon_space(), false));
                assert forall|key: Seq<char>| lookup(read, key) == lookup(ordered, key) by {
                    lemma_lines_over(start, ordered, key);
                    if lookup(ordered, key) is None {
                        match split_once(line.text(), colon_space()) {
                            Some((name, value)) => {
                                assert(start =~= seq![(name, value)]);
                                assert(lookup(ordered, name) == lookup(head.fields, name));
                                assert(key != name);
                                assert(start.drop_first() =~= Seq::<Field>::empty());
                                assert(key_position(start.drop_first(), key) == 0);
                                assert(lookup(start, key) is None);
                            },
                            None => {
                                assert(start =~= none);
                            },
                        }
                    }
                }
                assert(as_map(read) =~= as_map(ordered));
            }
        },
        None => {
            assert(all =~= field_lines(ordered));
            if head.fields.len() == 0 {
                lemma_select(head.fields, true);
                lemma_select(head.fields, false);
            } else {
                assert(head.fields.contains(head.fields[0]));
                assert(ordered.contains(head.fields[0]));
            }
            assert(read == ordered);
        },
    }
}

} // verus!
