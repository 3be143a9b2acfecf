//! Laws of the configuration: what is shown of it, what a submission changes,
//! and how documents are read.
use crate::config;
use crate::config::{encode_settings, ConfigValue, FieldKind};
use crate::text;
use crate::text_map::TextMap;
use vstd::prelude::*;

verus! {

/// The value says nothing: it is the empty string, or `null`.
pub open spec fn says_nothing(v: config::ConfigValueView) -> bool {
    match v {
        config::ConfigValueView::Text(s) => s.len() == 0,
        config::ConfigValueView::Json(s) => s == seq!['n', 'u', 'l', 'l'],
    }
}

proof fn lemma_blank(v: config::ConfigValueView)
    ensures
        config::blank(v) <==> says_nothing(v),
{
    reveal_strlit("null");
    assert("null"@ =~= seq!['n', 'u', 'l', 'l']);
    if let config::ConfigValueView::Text(s) = v {
        if s.len() == 0 {
            assert(s =~= Seq::empty());
        }
    }
}

/// The name under which a field is shown: its key, or for a secret the key with
/// `_set` behind it.
pub open spec fn shown_name(f: config::ConfigFieldView) -> Seq<char> {
    match f.kind {
        FieldKind::Plain => f.key,
        FieldKind::Secret => f.key + "_set"@,
    }
}

/// A declared field is shown: a plain one with its value, where it has one, and
/// a secret one only as whether it has a value that says something. (Of two
/// fields that are shown under one name, the later one counts.)
pub proof fn law_declared_fields_are_shown(
    values: Map<Seq<char>, config::ConfigValueView>,
    schema: Seq<config::ConfigFieldView>,
    i: int,
)
    requires
        0 <= i < schema.len(),
        forall|j: int|
            i < j < schema.len() ==> shown_name(#[trigger] schema[j]) != shown_name(schema[i]),
    ensures
        ({
            let f = schema[i];
            let shown = config::redacted(values, schema);
            let says_something = values.contains_key(f.key) && !says_nothing(values[f.key]);
            &&& f.kind is Plain && values.contains_key(f.key) ==> shown.contains_key(f.key)
                && shown[f.key] == values[f.key]
            &&& f.kind is Secret ==> shown.contains_key(f.key + "_set"@) && shown[f.key + "_set"@]
                == config::ConfigValueView::Json(
                if says_something {
                    "true"@
                } else {
                    "false"@
                },
            )
        }),
    decreases schema.len(),
{
    let f = schema[i];
    let before = schema.drop_last();
    if values.contains_key(f.key) {
        lemma_blank(values[f.key]);
    }
    if i < schema.len() - 1 {
        assert(before[i] == f);
        assert forall|j: int| i < j < before.len() implies shown_name(#[trigger] before[j])
            != shown_name(before[i]) by {
            assert(before[j] == schema[j]);
        }
        law_declared_fields_are_shown(values, before, i);
        assert(shown_name(schema[schema.len() - 1]) != shown_name(f));
    }
}

/// Nothing else is shown: a name that no field is shown under is not there, and
/// neither is that of a plain field without a value. So no value is shown under
/// a key whose fields are all secret.
pub proof fn law_nothing_else_is_shown(
    values: Map<Seq<char>, config::ConfigValueView>,
    schema: Seq<config::ConfigFieldView>,
    name: Seq<char>,
)
    requires
        forall|i: int|
            0 <= i < schema.len() ==> shown_name(#[trigger] schema[i]) != name || (schema[i].kind
                is Plain && !values.contains_key(name)),
    ensures
        !config::redacted(values, schema).contains_key(name),
    decreases schema.len(),
{
    if schema.len() > 0 {
        let before = schema.drop_last();
        assert forall|i: int| 0 <= i < before.len() implies shown_name(#[trigger] before[i]) != name
            || (before[i].kind is Plain && !values.contains_key(name)) by {
            assert(before[i] == schema[i]);
        }
        law_nothing_else_is_shown(values, before, name);
        let f = schema[schema.len() - 1];
        assert(shown_name(f) != name || (f.kind is Plain && !values.contains_key(name)));
    }
}

/// A field takes the value that is submitted for it: a plain one any value, a
/// secret one a value that says something.
pub open spec fn takes(
    incoming: Map<Seq<char>, config::ConfigValueView>,
    f: config::ConfigFieldView,
) -> bool {
    &&& incoming.contains_key(f.key)
    &&& f.kind is Plain || !says_nothing(incoming[f.key])
}

/// A submission stores, under each key, the submitted value where a field of
/// that key takes it, and leaves everything else as it was stored.
pub proof fn law_submission_changes_what_fields_take(
    base: Map<Seq<char>, config::ConfigValueView>,
    incoming: Map<Seq<char>, config::ConfigValueView>,
    schema: Seq<config::ConfigFieldView>,
    key: Seq<char>,
)
    ensures
        ({
            let stored = config::merged(base, incoming, schema);
            let taken = exists|i: int|
                0 <= i < schema.len() && (#[trigger] schema[i]).key == key && takes(
                    incoming,
                    schema[i],
                );
            &&& taken ==> stored.contains_key(key) && stored[key] == incoming[key]
            &&& !taken ==> stored.contains_key(key) == base.contains_key(key) && (
            base.contains_key(key) ==> stored[key] == base[key])
        }),
    decreases schema.len(),
{
    if schema.len() > 0 {
        let before = schema.drop_last();
        let last = schema[schema.len() - 1];
        law_submission_changes_what_fields_take(base, incoming, before, key);
        if incoming.contains_key(last.key) {
            lemma_blank(incoming[last.key]);
        }
        let taken_before = exists|i: int|
            0 <= i < before.len() && (#[trigger] before[i]).key == key && takes(
                incoming,
                before[i],
            );
        if taken_before {
            let i = choose|i: int|
                0 <= i < before.len() && (#[trigger] before[i]).key == key && takes(
                    incoming,
                    before[i],
                );
            assert(schema[i] == before[i]);
        }
        assert forall|i: int|
            0 <= i < schema.len() - 1 && (#[trigger] schema[i]).key == key && takes(
                incoming,
                schema[i],
            ) implies taken_before by {
            assert(before[i] == schema[i]);
        }
    }
}

/// What is submitted is what is then shown, for a plain field; of a secret, what
/// is shown is that it is set.
pub proof fn law_submitted_values_are_shown(
    base: Map<Seq<char>, config::ConfigValueView>,
    incoming: Map<Seq<char>, config::ConfigValueView>,
    schema: Seq<config::ConfigFieldView>,
    i: int,
)
    requires
        0 <= i < schema.len(),
        takes(incoming, schema[i]),
        forall|j: int|
            i < j < schema.len() ==> shown_name(#[trigger] schema[j]) != shown_name(schema[i]),
    ensures
        ({
            let shown = config::redacted(config::merged(base, incoming, schema), schema);
            let name = shown_name(schema[i]);
            &&& shown.contains_key(name)
            &&& schema[i].kind is Plain ==> shown[name] == incoming[schema[i].key]
            &&& schema[i].kind is Secret ==> shown[name] == config::ConfigValueView::Json("true"@)
        }),
{
    let stored = config::merged(base, incoming, schema);
    law_submission_changes_what_fields_take(base, incoming, schema, schema[i].key);
    law_declared_fields_are_shown(stored, schema, i);
}

// ------------------------------------------------------------------ documents
/// Of the members of an object, the last one of a name counts.
pub proof fn law_last_member_counts(
    list: Seq<(Seq<char>, config::ConfigValueView)>,
    at: int,
    name: Seq<char>,
    value: config::ConfigValueView,
)
    requires
        0 <= at < list.len(),
        list[at] == (name, value),
        forall|i: int| at < i < list.len() ==> (#[trigger] list[i]).0 != name,
    ensures
        config::settings_of(list).contains_key(name),
        config::settings_of(list)[name] == value,
    decreases list.len(),
{
    if at < list.len() - 1 {
        let before = list.drop_last();
        assert forall|i: int| at < i < before.len() implies (#[trigger] before[i]).0 != name by {
            assert(before[i] == list[i]);
        }
        law_last_member_counts(before, at, name, value);
        assert(list[list.len() - 1].0 != name);
    }
}

/// A name that no member has is not among the settings.
pub proof fn law_absent_member_is_absent(
    list: Seq<(Seq<char>, config::ConfigValueView)>,
    name: Seq<char>,
)
    requires
        forall|i: int| 0 <= i < list.len() ==> (#[trigger] list[i]).0 != name,
    ensures
        !config::settings_of(list).contains_key(name),
    decreases list.len(),
{
    if list.len() > 0 {
        let before = list.drop_last();
        assert forall|i: int| 0 <= i < before.len() implies (#[trigger] before[i]).0 != name by {
            assert(before[i] == list[i]);
        }
        law_absent_member_is_absent(before, name);
        assert(list[list.len() - 1].0 != name);
    }
}

/// An object is a document of its settings; any other JSON value is kept as it
/// is and holds none; and what is no JSON is no document.
pub proof fn law_document_holds_the_members(
    list: Seq<(Seq<char>, config::ConfigValueView)>,
    notation: Seq<char>,
    key: Seq<char>,
)
    ensures
        config::document_with(Some(config::JsonContentView::Object(list))) matches Some(document)
            && config::settings_in(document) == config::settings_of(list) && document is Object,
        config::document_with(Some(config::JsonContentView::Other(notation))) == Some(
            config::ConfigDocumentView::Other(notation),
        ),
        !config::settings_in(config::ConfigDocumentView::Other(notation)).contains_key(key),
        config::document_with(None) is None,
{
}

// ------------------------------------------------------------- written documents
/// A value in the notation that a JSON writer uses: a string, `true`, `false`,
/// `null`, or a whole number of at most 64 bits.
pub open spec fn is_written_plainly(v: config::ConfigValueView) -> bool {
    match v {
        config::ConfigValueView::Text(_) => true,
        config::ConfigValueView::Json(s) => {
            ||| s == "true"@
            ||| s == "false"@
            ||| s == "null"@
            ||| exists|n: u64| s == #[trigger] text::decimal(n as nat)
            ||| exists|n: u64|
                1 <= n <= 0x8000_0000_0000_0000 && s == "-"@ + #[trigger] text::decimal(n as nat)
        },
    }
}

/// Settings with plainly written values and without the reserved name are written
/// so that reading gives them back: none is lost, changed or added, however many
/// there are.
pub proof fn law_plain_settings_read_back(
    values: TextMap<ConfigValue>,
    res: Result<Vec<u8>, String>,
)
    requires
        call_ensures(encode_settings, (&values,), res),
        !values@.contains_key("$serde_json::private::RawValue"@),
        forall|k: Seq<char>| #[trigger] values@.contains_key(k) ==> is_written_plainly(values@[k]),
    ensures
        res matches Ok(bytes) ==> config::document_with(config::json_content(bytes@)) == Some(
            config::ConfigDocumentView::Object(values@),
        ),
{
    assert forall|k: Seq<char>| #[trigger] values@.contains_key(k) implies config::canonical(
        values@[k],
    ) by {
        assert(is_written_plainly(values@[k]));
    }
}

} // verus!
