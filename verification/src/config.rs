//! Plugin configuration: a declared schema, values of which some are secret,
//! and how values are shown and changed.
use crate::text;
use crate::text_map;
use crate::text_map::TextMap;
use vstd::prelude::*;

verus! {

// ----------------------------------------------------------------------- values
/// One configuration value: a string, or any other JSON value in its JSON
/// notation.
#[derive(Debug, Clone, PartialEq)]
pub enum ConfigValue {
    Text(String),
    Json(String),
}

/// The contents of a [`ConfigValue`].
pub enum ConfigValueView {
    Text(Seq<char>),
    Json(Seq<char>),
}

impl View for ConfigValue {
    type V = ConfigValueView;

    open spec fn view(&self) -> ConfigValueView {
        match *self {
            ConfigValue::Text(s) => ConfigValueView::Text(s@),
            ConfigValue::Json(s) => ConfigValueView::Json(s@),
        }
    }
}

/// Whether a field shows its value or hides it.
#[derive(Debug, Clone, Copy, PartialEq, Eq, Structural)]
pub enum FieldKind {
    Plain,
    Secret,
}

/// One declared configuration field.
#[derive(Debug, Clone, PartialEq)]
pub struct ConfigField {
    pub key: String,
    pub kind: FieldKind,
}

/// The contents of a [`ConfigField`].
pub struct ConfigFieldView {
    pub key: Seq<char>,
    pub kind: FieldKind,
}

impl View for ConfigField {
    type V = ConfigFieldView;

    open spec fn view(&self) -> ConfigFieldView {
        ConfigFieldView { key: self.key@, kind: self.kind }
    }
}

/// The fields that a plugin declares.
#[derive(Debug, Clone, PartialEq)]
pub struct ConfigSchema {
    pub fields: Vec<ConfigField>,
}

impl View for ConfigSchema {
    type V = Seq<ConfigFieldView>;

    open spec fn view(&self) -> Seq<ConfigFieldView> {
        Seq::new(self.fields@.len(), |i: int| self.fields@[i]@)
    }
}

impl Default for ConfigSchema {
    fn default() -> (res: ConfigSchema)
        ensures
            res@ == Seq::<ConfigFieldView>::empty(),
    {
        let res = ConfigSchema { fields: Vec::new() };
        assert(res@ =~= Seq::<ConfigFieldView>::empty());
        res
    }
}

impl ConfigSchema {
    /// A copy of the schema.
    pub fn duplicate(&self) -> (res: ConfigSchema)
        ensures
            res@ == self@,
    {
        let mut fields: Vec<ConfigField> = Vec::new();
        let mut i: usize = 0;
        while i < self.fields.len()
            invariant
                i <= self.fields@.len(),
                fields@.len() == i,
                forall|k: int| 0 <= k < i ==> (#[trigger] fields@[k])@ == self.fields@[k]@,
            decreases self.fields@.len() - i,
        {
            fields.push(
                ConfigField { key: self.fields[i].key.clone(), kind: self.fields[i].kind },
            );
            i = i + 1;
        }
        let res = ConfigSchema { fields };
        assert(res@ =~= self@);
        res
    }
}

impl ConfigValue {
    /// A copy of the value.
    pub fn duplicate(&self) -> (res: ConfigValue)
        ensures
            res@ == self@,
    {
        match self {
            ConfigValue::Text(s) => ConfigValue::Text(s.clone()),
            ConfigValue::Json(s) => ConfigValue::Json(s.clone()),
        }
    }
}

/// A copy of a set of values.
fn duplicate_values(values: &TextMap<ConfigValue>) -> (res: TextMap<ConfigValue>)
    ensures
        res@ == values@,
{
    let list = values.entries();
    let mut out: TextMap<ConfigValue> = TextMap::new();
    let mut i: usize = 0;
    assert(out@ =~= text_map::map_of(list@.take(0)));
    while i < list.len()
        invariant
            text_map::ascending(list@),
            i <= list@.len(),
            out@ == text_map::map_of(list@.take(i as int)),
        decreases list@.len() - i,
    {
        proof {
            text_map::lemma_map_of_longer(list@, i as int);
        }
        out.insert(list[i].0.clone(), list[i].1.duplicate());
        i = i + 1;
    }
    assert(list@.take(i as int) =~= list@);
    out
}

/// A configuration document: the settings of a JSON object, or any other JSON
/// value in its JSON notation, which holds no settings.
#[derive(Debug, PartialEq)]
pub enum ConfigDocument {
    Object(TextMap<ConfigValue>),
    Other(String),
}

/// The contents of a [`ConfigDocument`].
pub enum ConfigDocumentView {
    Object(Map<Seq<char>, ConfigValueView>),
    Other(Seq<char>),
}

impl View for ConfigDocument {
    type V = ConfigDocumentView;

    open spec fn view(&self) -> ConfigDocumentView {
        match *self {
            ConfigDocument::Object(values) => ConfigDocumentView::Object(values@),
            ConfigDocument::Other(s) => ConfigDocumentView::Other(s@),
        }
    }
}

/// The settings that a document holds.
pub open spec fn settings_in(document: ConfigDocumentView) -> Map<Seq<char>, ConfigValueView> {
    match document {
        ConfigDocumentView::Object(values) => values,
        ConfigDocumentView::Other(_) => Map::empty(),
    }
}

impl ConfigDocument {
    /// The settings that the document holds.
    pub fn settings(&self) -> (res: TextMap<ConfigValue>)
        ensures
            res@ == settings_in(self@),
    {
        match self {
            ConfigDocument::Object(values) => duplicate_values(values),
            ConfigDocument::Other(_) => TextMap::new(),
        }
    }

    /// A copy of the document.
    pub fn duplicate(&self) -> (res: ConfigDocument)
        ensures
            res@ == self@,
    {
        match self {
            ConfigDocument::Object(values) => ConfigDocument::Object(duplicate_values(values)),
            ConfigDocument::Other(s) => ConfigDocument::Other(s.clone()),
        }
    }
}

// -------------------------------------------------------------- documents as JSON
/// The contents of a list of members.
pub open spec fn member_views(list: Seq<(String, ConfigValue)>) -> Seq<
    (Seq<char>, ConfigValueView),
> {
    Seq::new(list.len(), |i: int| (list[i].0@, list[i].1@))
}

/// A JSON value: the members of an object, or any other value in its JSON
/// notation.
#[derive(Debug)]
pub enum JsonContent {
    Object(Vec<(String, ConfigValue)>),
    Other(String),
}

/// The contents of a [`JsonContent`].
pub enum JsonContentView {
    Object(Seq<(Seq<char>, ConfigValueView)>),
    Other(Seq<char>),
}

impl View for JsonContent {
    type V = JsonContentView;

    open spec fn view(&self) -> JsonContentView {
        match *self {
            JsonContent::Object(list) => JsonContentView::Object(member_views(list@)),
            JsonContent::Other(s) => JsonContentView::Other(s@),
        }
    }
}

/// The contents of a JSON value, if there is one.
pub open spec fn content_view(content: Option<JsonContent>) -> Option<JsonContentView> {
    match content {
        Some(c) => Some(c@),
        None => None,
    }
}

/// The value that a JSON text holds; `None` where it is no JSON text.
pub uninterp spec fn json_content(bytes: Seq<u8>) -> Option<JsonContentView>;

/// `serde_json::from_slice`, into a `serde_json::Value`: the value that the text
/// holds. A member that is a string is taken as it is, any other member, and any
/// value but an object, in its JSON notation.
#[verifier::external_body]
fn read_json(bytes: &[u8]) -> (res: Option<JsonContent>)
    ensures
        content_view(res) == json_content(bytes@),
{
    let value = |v: serde_json::Value| match v {
        serde_json::Value::String(s) => ConfigValue::Text(s),
        other => ConfigValue::Json(other.to_string()),
    };
    match serde_json::from_slice::<serde_json::Value>(bytes).ok()? {
        serde_json::Value::Object(m) => Some(JsonContent::Object(m.into_iter().map(|(k, v)| (k, value(v))).collect())),
        other => Some(JsonContent::Other(other.to_string())),
    }
}

/// The settings that a list of members makes; of two with the same name the
/// later one counts.
pub open spec fn settings_of(list: Seq<(Seq<char>, ConfigValueView)>) -> Map<
    Seq<char>,
    ConfigValueView,
>
    decreases list.len(),
{
    if list.len() == 0 {
        Map::empty()
    } else {
        settings_of(list.drop_last()).insert(list.last().0, list.last().1)
    }
}

/// The document that a JSON value is, if there is one.
pub open spec fn document_with(content: Option<JsonContentView>) -> Option<ConfigDocumentView> {
    match content {
        Some(JsonContentView::Object(list)) => Some(ConfigDocumentView::Object(settings_of(list))),
        Some(JsonContentView::Other(s)) => Some(ConfigDocumentView::Other(s)),
        None => None,
    }
}

/// The contents of a document, if there is one.
pub open spec fn document_view(document: Option<ConfigDocument>) -> Option<ConfigDocumentView> {
    match document {
        Some(d) => Some(d@),
        None => None,
    }
}

/// The document that a JSON value is, if there is one.
pub fn document_of(content: Option<JsonContent>) -> (res: Option<ConfigDocument>)
    ensures
        document_view(res) == document_with(content_view(content)),
{
    let list = match content {
        Some(JsonContent::Object(list)) => list,
        Some(JsonContent::Other(s)) => {
            return Some(ConfigDocument::Other(s));
        },
        None => {
            return None;
        },
    };
    let ghost all = member_views(list@);
    let ghost raw = list@;
    let mut values: TextMap<ConfigValue> = TextMap::new();
    for member in it: list.into_iter()
        invariant
            it.seq() == raw,
            all == member_views(raw),
            values@ == settings_of(all.take(it.index())),
    {
        assert(all.take(it.index() + 1).drop_last() =~= all.take(it.index()));
        values.insert(member.0, member.1);
    }
    assert(all.take(all.len() as int) =~= all);
    Some(ConfigDocument::Object(values))
}

/// Reads a configuration document; `None` where the bytes are no JSON text.
pub fn parse_document(bytes: &[u8]) -> (res: Option<ConfigDocument>)
    ensures
        document_view(res) == document_with(json_content(bytes@)),
{
    document_of(read_json(bytes))
}

/// What writing an object with these members gives: the JSON text, or the
/// message of the writer's error.
pub uninterp spec fn json_written(list: Seq<(Seq<char>, ConfigValueView)>) -> Result<
    Seq<u8>,
    Seq<char>,
>;

/// The contents of a written text, or of the error in its place.
pub open spec fn written_view(res: Result<Vec<u8>, String>) -> Result<Seq<u8>, Seq<char>> {
    match res {
        Ok(bytes) => Ok(bytes@),
        Err(message) => Err(message@),
    }
}

/// The names of the members are in ascending order.
pub open spec fn ascending_names(list: Seq<(Seq<char>, ConfigValueView)>) -> bool {
    forall|i: int, j: int|
        0 <= i < j < list.len() ==> text::text_before(
            (#[trigger] list[i]).0,
            (#[trigger] list[j]).0,
        )
}

/// The name by which `serde_json` marks a value that is embedded as raw JSON. An
/// object that begins with a member of this name is not read as an object.
pub open spec fn raw_value_name() -> Seq<char> {
    "$serde_json::private::RawValue"@
}

/// What a notation reads back as when it was written as the only member of an
/// object; `None` where that object cannot be read back.
pub open spec fn read_back(notation: Seq<char>) -> Option<ConfigValueView> {
    match json_written(seq![(Seq::empty(), ConfigValueView::Json(notation))]) {
        Ok(bytes) => match json_content(bytes) {
            Some(JsonContentView::Object(list)) => Some(list[0].1),
            _ => None,
        },
        Err(_) => None,
    }
}

/// What a value reads back as: a string as itself, anything else as its notation
/// does.
pub open spec fn value_read_back(v: ConfigValueView) -> Option<ConfigValueView> {
    match v {
        ConfigValueView::Text(_) => Some(v),
        ConfigValueView::Json(s) => read_back(s),
    }
}

/// What an object reads back as: the same names, each with what its value reads
/// back as; nothing where one of them cannot be read back.
pub open spec fn members_read_back(list: Seq<(Seq<char>, ConfigValueView)>) -> Option<
    JsonContentView,
> {
    if forall|i: int| 0 <= i < list.len() ==> value_read_back((#[trigger] list[i]).1) is Some {
        Some(
            JsonContentView::Object(
                Seq::new(list.len(), |i: int| (list[i].0, value_read_back(list[i].1)->0)),
            ),
        )
    } else {
        None
    }
}

/// A value whose notation is the one that a JSON writer uses: a string, a truth
/// value, `null`, or a whole number of at most 64 bits.
pub open spec fn canonical(v: ConfigValueView) -> bool {
    match v {
        ConfigValueView::Text(_) => true,
        ConfigValueView::Json(s) => {
            ||| s == "true"@
            ||| s == "false"@
            ||| s == "null"@
            ||| exists|n: u64| s == #[trigger] text::decimal(n as nat)
            ||| exists|n: u64|
                1 <= n <= 0x8000_0000_0000_0000 && s == "-"@ + #[trigger] text::decimal(n as nat)
        },
    }
}

/// `serde_json::to_vec_pretty`, of an object with these members, each notation
/// taken up by `serde_json::from_str` (one that is no JSON as `null`). The text
/// depends on the members alone. Reading it gives the same names, a string as it
/// was, and any other value as it would read back by itself; canonical values
/// read back unchanged. Nothing is said of reading back an object that begins
/// with [`raw_value_name`].
#[verifier::external_body]
fn write_json(members: &Vec<(String, ConfigValue)>) -> (res: Result<Vec<u8>, String>)
    requires
        ascending_names(member_views(members@)),
    ensures
        written_view(res) == json_written(member_views(members@)),
        res matches Ok(bytes) ==> (members@.len() > 0 ==> members@[0].0@ != raw_value_name())
            ==> json_content(bytes@) == members_read_back(member_views(members@)),
        res matches Ok(bytes) ==> (members@.len() > 0 ==> members@[0].0@ != raw_value_name())
            ==> (forall|i: int| 0 <= i < members@.len() ==> canonical((#[trigger] members@[i]).1@))
            ==> json_content(bytes@) == Some(JsonContentView::Object(member_views(members@))),
{
    let value = |v: &ConfigValue| match v {
        ConfigValue::Text(s) => serde_json::Value::String(s.clone()),
        ConfigValue::Json(s) => serde_json::from_str(s).unwrap_or_default(),
    };
    let object: serde_json::Map<_, _> = members.iter().map(|(k, v)| (k.clone(), value(v))).collect();
    serde_json::to_vec_pretty(&serde_json::Value::Object(object)).map_err(|e| e.to_string())
}

/// The members of `list` are those of the map, in ascending order of their
/// names.
pub open spec fn lists_settings(
    list: Seq<(Seq<char>, ConfigValueView)>,
    values: Map<Seq<char>, ConfigValueView>,
) -> bool {
    settings_of(list) == values && ascending_names(list)
}

/// The settings do not begin with the reserved name: it is not among their
/// names, or another one comes before it.
pub open spec fn reads_as_object(values: Map<Seq<char>, ConfigValueView>) -> bool {
    values.contains_key(raw_value_name()) ==> exists|k: Seq<char>| #[trigger]
        values.contains_key(k) && text::text_before(k, raw_value_name())
}

/// What settings read back as once they were written: the same names, each with
/// what its value reads back as; nothing where one of them cannot be read back.
pub open spec fn settings_read_back(values: Map<Seq<char>, ConfigValueView>) -> Option<
    ConfigDocumentView,
> {
    if forall|k: Seq<char>| #[trigger]
        values.contains_key(k) ==> value_read_back(values[k]) is Some {
        Some(
            ConfigDocumentView::Object(
                Map::new(
                    |k: Seq<char>| values.contains_key(k),
                    |k: Seq<char>| value_read_back(values[k])->0,
                ),
            ),
        )
    } else {
        None
    }
}

/// Every value is canonical.
pub open spec fn all_canonical(values: Map<Seq<char>, ConfigValueView>) -> bool {
    forall|k: Seq<char>| #[trigger] values.contains_key(k) ==> canonical(values[k])
}

/// Writes settings as a JSON object, in ascending order of their names. The text
/// reads back as those settings: canonical values unchanged, any other as it
/// would read back by itself.
pub fn encode_settings(values: &TextMap<ConfigValue>) -> (res: Result<Vec<u8>, String>)
    ensures
        exists|list: Seq<(Seq<char>, ConfigValueView)>| #[trigger]
            lists_settings(list, values@) && written_view(res) == json_written(list),
        res matches Ok(bytes) ==> reads_as_object(values@) ==> document_with(json_content(bytes@))
            == settings_read_back(values@),
        res matches Ok(bytes) ==> reads_as_object(values@) && all_canonical(values@)
            ==> document_with(json_content(bytes@)) == Some(ConfigDocumentView::Object(values@)),
{
    let list = values.entries();
    proof {
        let members = member_views(list@);
        lemma_settings_of_entries(list@);
        assert forall|i: int, j: int| 0 <= i < j < members.len() implies text::text_before(
            (#[trigger] members[i]).0,
            (#[trigger] members[j]).0,
        ) by {
            assert(text::text_before(list@[i].0@, list@[j].0@));
        }
        assert(lists_settings(members, values@));
        lemma_members(members);
        if reads_as_object(values@) && members.len() > 0 {
            lemma_not_first(members);
        }
        lemma_read_back(members);
        if all_canonical(values@) {
            assert forall|i: int| 0 <= i < list@.len() implies canonical(
                (#[trigger] list@[i]).1@,
            ) by {
                assert(values@.contains_key(members[i].0));
                assert(values@[members[i].0] == members[i].1);
            }
        }
    }
    write_json(list)
}

/// Members with ascending names are found under their names, and nothing else is.
proof fn lemma_members(list: Seq<(Seq<char>, ConfigValueView)>)
    requires
        ascending_names(list),
    ensures
        forall|i: int|
            0 <= i < list.len() ==> settings_of(list).contains_key((#[trigger] list[i]).0)
                && settings_of(list)[list[i].0] == list[i].1,
        forall|k: Seq<char>| #[trigger]
            settings_of(list).contains_key(k) ==> exists|i: int|
                0 <= i < list.len() && (#[trigger] list[i]).0 == k,
    decreases list.len(),
{
    if list.len() > 0 {
        let before = list.drop_last();
        let last = list.last();
        assert forall|i: int, j: int| 0 <= i < j < before.len() implies text::text_before(
            (#[trigger] before[i]).0,
            (#[trigger] before[j]).0,
        ) by {
            assert(before[i] == list[i] && before[j] == list[j]);
        }
        lemma_members(before);
        assert forall|i: int| 0 <= i < list.len() implies settings_of(list).contains_key(
            (#[trigger] list[i]).0,
        ) && settings_of(list)[list[i].0] == list[i].1 by {
            if i < before.len() {
                assert(before[i] == list[i]);
                assert(text::text_before(list[i].0, list[list.len() - 1].0));
                text::lemma_before_irreflexive(last.0);
            }
        }
        assert forall|k: Seq<char>| #[trigger] settings_of(list).contains_key(k) implies exists|
            i: int,
        |
            0 <= i < list.len() && (#[trigger] list[i]).0 == k by {
            if k == last.0 {
                assert(list[list.len() - 1].0 == k);
            } else {
                assert(settings_of(before).contains_key(k));
                let i = choose|i: int| 0 <= i < before.len() && (#[trigger] before[i]).0 == k;
                assert(list[i] == before[i]);
            }
        }
    }
}

/// Settings that are read as an object do not begin with the reserved name.
proof fn lemma_not_first(list: Seq<(Seq<char>, ConfigValueView)>)
    requires
        ascending_names(list),
        list.len() > 0,
        reads_as_object(settings_of(list)),
    ensures
        list[0].0 != raw_value_name(),
{
    lemma_members(list);
    if list[0].0 == raw_value_name() {
        let values = settings_of(list);
        assert(values.contains_key(list[0].0));
        let k = choose|k: Seq<char>| #[trigger]
            values.contains_key(k) && text::text_before(k, raw_value_name());
        let i = choose|i: int| 0 <= i < list.len() && (#[trigger] list[i]).0 == k;
        if i > 0 {
            text::lemma_before_transitive(k, list[0].0, list[i].0);
        }
        text::lemma_before_irreflexive(k);
    }
}

/// Members and the settings that they make read back alike.
proof fn lemma_read_back(list: Seq<(Seq<char>, ConfigValueView)>)
    requires
        ascending_names(list),
    ensures
        document_with(members_read_back(list)) == settings_read_back(settings_of(list)),
{
    let values = settings_of(list);
    lemma_members(list);
    if members_read_back(list) is Some {
        let back = Seq::new(list.len(), |i: int| (list[i].0, value_read_back(list[i].1)->0));
        assert forall|i: int, j: int| 0 <= i < j < back.len() implies text::text_before(
            (#[trigger] back[i]).0,
            (#[trigger] back[j]).0,
        ) by {
            assert(text::text_before(list[i].0, list[j].0));
        }
        lemma_members(back);
        assert forall|k: Seq<char>| #[trigger] values.contains_key(k) implies value_read_back(
            values[k],
        ) is Some by {
            let i = choose|i: int| 0 <= i < list.len() && (#[trigger] list[i]).0 == k;
            assert(values[list[i].0] == list[i].1);
        }
        let target = Map::new(
            |k: Seq<char>| values.contains_key(k),
            |k: Seq<char>| value_read_back(values[k])->0,
        );
        let got = settings_of(back);
        assert forall|k: Seq<char>|
            #![trigger got.dom().contains(k)]
            #![trigger target.dom().contains(k)]
            got.dom().contains(k) == target.dom().contains(k) && (got.dom().contains(k) ==> got[k]
                == target[k]) by {
            if got.contains_key(k) {
                let i = choose|i: int| 0 <= i < back.len() && (#[trigger] back[i]).0 == k;
                assert(list[i].0 == k);
                assert(got[back[i].0] == back[i].1);
            }
            if values.contains_key(k) {
                let i = choose|i: int| 0 <= i < list.len() && (#[trigger] list[i]).0 == k;
                assert(back[i].0 == k);
            }
        }
        assert(got =~= target);
    } else {
        let i = choose|i: int|
            0 <= i < list.len() && !(value_read_back((#[trigger] list[i]).1) is Some);
        assert(values.contains_key(list[i].0));
    }
}

/// Ascending entries make the map that they are the entries of.
proof fn lemma_settings_of_entries(list: Seq<(String, ConfigValue)>)
    requires
        text_map::ascending(list),
    ensures
        settings_of(member_views(list)) == text_map::map_of(list),
    decreases list.len(),
{
    let views = member_views(list);
    if list.len() == 0 {
        assert(settings_of(views) =~= text_map::map_of(list));
    } else {
        let n = list.len() - 1;
        let before = list.take(n);
        assert forall|i: int, j: int| 0 <= i < j < before.len() implies text::text_before(
            #[trigger] before[i].0@,
            #[trigger] before[j].0@,
        ) by {
            assert(before[i] == list[i] && before[j] == list[j]);
        }
        lemma_settings_of_entries(before);
        text_map::lemma_map_of_longer(list, n);
        assert(list.take(n + 1) =~= list);
        assert(views.drop_last() =~= member_views(before));
    }
}

// ------------------------------------------------------------- showing, changing
/// A value that says nothing: the empty string or `null`.
pub open spec fn blank(v: ConfigValueView) -> bool {
    ||| v == ConfigValueView::Text(Seq::empty())
    ||| v == ConfigValueView::Json("null"@)
}

/// `true` or `false`, as a value.
pub open spec fn flag(b: bool) -> ConfigValueView {
    ConfigValueView::Json(
        if b {
            "true"@
        } else {
            "false"@
        },
    )
}

/// A secret is set: there is a value for it that is not blank.
pub open spec fn is_set(values: Map<Seq<char>, ConfigValueView>, key: Seq<char>) -> bool {
    values.contains_key(key) && !blank(values[key])
}

/// What is shown of `values`: a plain field as it is, a secret field only as
/// `<key>_set`.
pub open spec fn redacted(
    values: Map<Seq<char>, ConfigValueView>,
    schema: Seq<ConfigFieldView>,
) -> Map<Seq<char>, ConfigValueView>
    decreases schema.len(),
{
    if schema.len() == 0 {
        Map::empty()
    } else {
        let shown = redacted(values, schema.drop_last());
        let f = schema.last();
        if f.kind == FieldKind::Secret {
            shown.insert(f.key + "_set"@, flag(is_set(values, f.key)))
        } else if values.contains_key(f.key) {
            shown.insert(f.key, values[f.key])
        } else {
            shown
        }
    }
}

/// A submitted value counts: its field is declared, and it is not a blank one
/// for a secret.
pub open spec fn submitted(incoming: Map<Seq<char>, ConfigValueView>, f: ConfigFieldView) -> bool {
    incoming.contains_key(f.key) && !(f.kind == FieldKind::Secret && blank(incoming[f.key]))
}

/// `base` with the submitted values of the declared fields.
pub open spec fn merged(
    base: Map<Seq<char>, ConfigValueView>,
    incoming: Map<Seq<char>, ConfigValueView>,
    schema: Seq<ConfigFieldView>,
) -> Map<Seq<char>, ConfigValueView>
    decreases schema.len(),
{
    if schema.len() == 0 {
        base
    } else {
        let before = merged(base, incoming, schema.drop_last());
        let f = schema.last();
        if submitted(incoming, f) {
            before.insert(f.key, incoming[f.key])
        } else {
            before
        }
    }
}

/// Whether a value says nothing.
fn is_blank(value: &ConfigValue) -> (res: bool)
    ensures
        res == blank(value@),
{
    match value {
        ConfigValue::Text(s) => {
            assert(s@.len() == 0 ==> s@ =~= Seq::empty());
            s.as_str().is_empty()
        },
        ConfigValue::Json(s) => text::same_text(s.as_str(), "null"),
    }
}

/// The values as they may be shown: secrets only as `<key>_set`.
pub fn redact(document: &ConfigDocument, schema: &ConfigSchema) -> (res: TextMap<ConfigValue>)
    ensures
        res@ == redacted(settings_in(document@), schema@),
{
    let values = document.settings();
    let mut out: TextMap<ConfigValue> = TextMap::new();
    let mut i: usize = 0;
    while i < schema.fields.len()
        invariant
            i <= schema.fields@.len(),
            values@ == settings_in(document@),
            out@ == redacted(settings_in(document@), schema@.take(i as int)),
        decreases schema.fields@.len() - i,
    {
        let field = &schema.fields[i];
        assert(schema@.take(i + 1).drop_last() =~= schema@.take(i as int));
        assert(schema@.take(i + 1).last() == field@);
        match field.kind {
            FieldKind::Secret => {
                let set = match values.get(field.key.as_str()) {
                    Some(value) => !is_blank(value),
                    None => false,
                };
                let mut key = field.key.clone();
                key.push_str("_set");
                let shown = if set {
                    "true".to_string()
                } else {
                    "false".to_string()
                };
                out.insert(key, ConfigValue::Json(shown));
            },
            FieldKind::Plain => {
                if let Some(value) = values.get(field.key.as_str()) {
                    out.insert(field.key.clone(), value.duplicate());
                }
            },
        }
        i = i + 1;
    }
    assert(schema@.take(i as int) =~= schema@);
    out
}

/// The stored values with the submitted ones put in. Values of undeclared
/// fields are not taken over; a blank secret keeps its stored value.
pub fn merge(
    base: &ConfigDocument,
    incoming: &ConfigDocument,
    schema: &ConfigSchema,
) -> (res: TextMap<ConfigValue>)
    ensures
        res@ == merged(settings_in(base@), settings_in(incoming@), schema@),
{
    let mut out = base.settings();
    let submitted_values = incoming.settings();
    let mut i: usize = 0;
    while i < schema.fields.len()
        invariant
            i <= schema.fields@.len(),
            submitted_values@ == settings_in(incoming@),
            out@ == merged(
                settings_in(base@),
                settings_in(incoming@),
                schema@.take(i as int),
            ),
        decreases schema.fields@.len() - i,
    {
        let field = &schema.fields[i];
        assert(schema@.take(i + 1).drop_last() =~= schema@.take(i as int));
        assert(schema@.take(i + 1).last() == field@);
        if let Some(value) = submitted_values.get(field.key.as_str()) {
            let keeps = match field.kind {
                FieldKind::Secret => is_blank(value),
                FieldKind::Plain => false,
            };
            if !keeps {
                out.insert(field.key.clone(), value.duplicate());
            }
        }
        i = i + 1;
    }
    assert(schema@.take(i as int) =~= schema@);
    out
}

// ------------------------------------------------------------------------ laws
/// Whatever is shown is a plain field's own value, or the flag that tells
/// whether a secret is set: no value of a secret field is ever shown under its
/// key, unless a plain field is declared under that key too.
pub proof fn law_secrets_stay_hidden(
    values: Map<Seq<char>, ConfigValueView>,
    schema: Seq<ConfigFieldView>,
    key: Seq<char>,
)
    requires
        redacted(values, schema).contains_key(key),
    ensures
        exists|i: int|
            0 <= i < schema.len() && {
                let f = #[trigger] schema[i];
                if f.kind == FieldKind::Secret {
                    key == f.key + "_set"@ && redacted(values, schema)[key] == flag(
                        is_set(values, f.key),
                    )
                } else {
                    key == f.key && values.contains_key(key) && redacted(values, schema)[key]
                        == values[key]
                }
            },
    decreases schema.len(),
{
    let before = schema.drop_last();
    let f = schema.last();
    let own = if f.kind == FieldKind::Secret {
        f.key + "_set"@
    } else {
        f.key
    };
    if key == own && (f.kind == FieldKind::Secret || values.contains_key(f.key)) {
        assert(schema[schema.len() - 1] == f);
    } else {
        law_secrets_stay_hidden(values, before, key);
        let i = choose|i: int|
            0 <= i < before.len() && {
                let f = #[trigger] before[i];
                if f.kind == FieldKind::Secret {
                    key == f.key + "_set"@ && redacted(values, before)[key] == flag(
                        is_set(values, f.key),
                    )
                } else {
                    key == f.key && values.contains_key(key) && redacted(values, before)[key]
                        == values[key]
                }
            };
        assert(schema[i] == before[i]);
    }
}

/// A value that is not submitted stays as it is stored: an undeclared key, a
/// field that the submission leaves out, and a secret that it leaves blank.
pub proof fn law_merge_keeps_the_rest(
    base: Map<Seq<char>, ConfigValueView>,
    incoming: Map<Seq<char>, ConfigValueView>,
    schema: Seq<ConfigFieldView>,
    key: Seq<char>,
)
    requires
        forall|i: int|
            0 <= i < schema.len() && (#[trigger] schema[i]).key == key ==> !submitted(
                incoming,
                schema[i],
            ),
    ensures
        merged(base, incoming, schema).contains_key(key) == base.contains_key(key),
        base.contains_key(key) ==> merged(base, incoming, schema)[key] == base[key],
    decreases schema.len(),
{
    if schema.len() > 0 {
        let before = schema.drop_last();
        assert forall|i: int|
            0 <= i < before.len() && (#[trigger] before[i]).key == key implies !submitted(
            incoming,
            before[i],
        ) by {
            assert(before[i] == schema[i]);
        }
        assert(schema[schema.len() - 1] == schema.last());
        law_merge_keeps_the_rest(base, incoming, before, key);
    }
}

/// A submitted value of a declared field is stored.
pub proof fn law_merge_takes_the_submitted(
    base: Map<Seq<char>, ConfigValueView>,
    incoming: Map<Seq<char>, ConfigValueView>,
    schema: Seq<ConfigFieldView>,
    i: int,
)
    requires
        0 <= i < schema.len(),
        submitted(incoming, schema[i]),
    ensures
        merged(base, incoming, schema).contains_key(schema[i].key),
        merged(base, incoming, schema)[schema[i].key] == incoming[schema[i].key],
    decreases schema.len(),
{
    if i < schema.len() - 1 {
        assert(schema.drop_last()[i] == schema[i]);
        law_merge_takes_the_submitted(base, incoming, schema.drop_last(), i);
    }
}

/// Saving the same values twice changes nothing the second time.
pub proof fn law_merge_is_idempotent(
    base: Map<Seq<char>, ConfigValueView>,
    incoming: Map<Seq<char>, ConfigValueView>,
    schema: Seq<ConfigFieldView>,
)
    ensures
        merged(merged(base, incoming, schema), incoming, schema) == merged(base, incoming, schema),
{
    let once = merged(base, incoming, schema);
    let twice = merged(once, incoming, schema);
    assert forall|key: Seq<char>|
        #![trigger twice.dom().contains(key)]
        #![trigger once.dom().contains(key)]
        twice.dom().contains(key) == once.dom().contains(key) && (once.dom().contains(key)
            ==> twice[key] == once[key]) by {
        if exists|i: int|
            0 <= i < schema.len() && (#[trigger] schema[i]).key == key && submitted(
                incoming,
                schema[i],
            ) {
            let i = choose|i: int|
                0 <= i < schema.len() && (#[trigger] schema[i]).key == key && submitted(
                    incoming,
                    schema[i],
                );
            law_merge_takes_the_submitted(base, incoming, schema, i);
            law_merge_takes_the_submitted(once, incoming, schema, i);
        } else {
            law_merge_keeps_the_rest(once, incoming, schema, key);
        }
    }
    assert(twice =~= once);
}

} // verus!
