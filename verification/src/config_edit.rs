//! Edits of the manager document: adding a service to the default group, or taking it
//! out, with comments and formatting kept.

use toml_edit::{DocumentMut, Item, Value};
use vstd::prelude::*;

use crate::model::ServiceId;
use crate::search;
use crate::text;

verus! {

/// An editable document of `toml_edit`.
#[verifier::external_type_specification]
#[verifier::external_body]
pub struct ExDocumentMut(DocumentMut);

/// The items of a list, each a text or something else.
pub type Items = Seq<Option<Seq<char>>>;

/// The texts that a document holds at its top, by their keys.
pub uninterp spec fn document_strings(d: DocumentMut) -> Map<Seq<char>, Seq<char>>;

/// The lists that a document holds in the tables of its tables, by the three keys that lead
/// to each.
pub uninterp spec fn document_lists(d: DocumentMut) -> Map<
    Seq<Seq<char>>,
    Seq<Option<Seq<char>>>,
>;

/// The text that a document is written as.
pub uninterp spec fn document_text(d: DocumentMut) -> Seq<char>;

/// The texts, the lists and the written form of the document that a text is read as, or
/// the message that says why it cannot be read.
pub uninterp spec fn read_document(source: Seq<char>) -> Result<
    (Map<Seq<char>, Seq<char>>, Map<Seq<Seq<char>>, Seq<Option<Seq<char>>>>, Seq<char>),
    Seq<char>,
>;

/// Calls `DocumentMut::from_str`. What it reads, whether it can, and what the message of
/// its `TomlError` is where it cannot, depend on the text alone.
#[verifier::external_body]
fn parse_document(source: &str) -> (r: Result<DocumentMut, String>)
    ensures
        match r {
            Ok(d) => read_document(source@) == Ok::<_, Seq<char>>(
                (document_strings(d), document_lists(d), document_text(d)),
            ),
            Err(message) => read_document(source@) == Err::<
                (Map<Seq<char>, Seq<char>>, Map<Seq<Seq<char>>, Seq<Option<Seq<char>>>>, Seq<char>),
                Seq<char>,
            >(message@),
        },
{
    source.parse::<DocumentMut>().map_err(|error| error.to_string())
}

/// Calls `Table::get` on the document and `Item::as_str` on what it finds: the text
/// under a key at the top, where there is one.
#[verifier::external_body]
fn string_at(document: &DocumentMut, key: &str) -> (r: Option<String>)
    ensures
        match r {
            Some(s) => document_strings(*document).contains_key(key@) && document_strings(
                *document,
            )[key@] == s@,
            None => !document_strings(*document).contains_key(key@),
        },
{
    document.get(key).and_then(Item::as_str).map(str::to_owned)
}

/// The items that a list of strings stands for.
pub open spec fn items(list: Seq<Option<String>>) -> Seq<Option<Seq<char>>> {
    Seq::new(list.len(), |i: int| text::optional_text(list[i]))
}

/// Calls `Table::get` on the document and `TableLike::get` twice, each with the next of
/// three keys, and hands the elements of the array that it finds there out, each as its
/// text where it is one.
#[verifier::external_body]
fn list_at(document: &DocumentMut, outer: &str, inner: &str, key: &str) -> (r: Option<
    Vec<Option<String>>,
>)
    ensures
        ({
            let path = seq![outer@, inner@, key@];
            match r {
                Some(list) => document_lists(*document).contains_key(path) && document_lists(
                    *document,
                )[path] == items(list@),
                None => !document_lists(*document).contains_key(path),
            }
        }),
{
    let tables = document.get(outer).and_then(Item::as_table_like)?;
    let item = tables.get(inner).and_then(Item::as_table_like)?.get(key)?;
    let array = item.as_array()?;
    let text = |i| array.get(i).and_then(Value::as_str).map(str::to_owned);
    Some((0..array.len()).map(text).collect())
}

/// Whether a text is another one with a piece put in at one place.
pub open spec fn extended(shorter: Seq<char>, longer: Seq<char>) -> bool {
    exists|i: int, piece: Seq<char>|
        0 <= i <= shorter.len() && longer == #[trigger] (shorter.take(i) + piece) + shorter.skip(i)
}

/// Calls `Array::push` on the array at three keys: the value becomes the last element, and
/// no other text or list changes. `Display` writes an array element by element, so the
/// document is written with one piece put in; which one is left to the crate.
#[verifier::external_body]
fn push_item(document: &mut DocumentMut, outer: &str, inner: &str, key: &str, value: &str)
    requires
        document_lists(*old(document)).contains_key(seq![outer@, inner@, key@]),
    ensures
        document_strings(*final(document)) == document_strings(*old(document)),
        document_lists(*final(document)) == document_lists(*old(document)).insert(
            seq![outer@, inner@, key@],
            document_lists(*old(document))[seq![outer@, inner@, key@]].push(Some(value@)),
        ),
        extended(document_text(*old(document)), document_text(*final(document))),
{
    let tables = document.get_mut(outer).and_then(Item::as_table_like_mut);
    let table = tables.and_then(|tables| tables.get_mut(inner));
    let item = table.and_then(Item::as_table_like_mut).and_then(|table| table.get_mut(key));
    if let Some(array) = item.and_then(Item::as_array_mut) {
        array.push(value);
    }
}

/// Calls `Array::remove` on the array at three keys: the element at the index, which is a
/// text, is gone, and no other text or list changes. The document is written with one piece
/// less: the element, what surrounds it and a comma.
#[verifier::external_body]
fn remove_item(document: &mut DocumentMut, outer: &str, inner: &str, key: &str, index: usize)
    requires
        document_lists(*old(document)).contains_key(seq![outer@, inner@, key@]),
        index < document_lists(*old(document))[seq![outer@, inner@, key@]].len(),
        document_lists(*old(document))[seq![outer@, inner@, key@]][index as int] is Some,
    ensures
        document_strings(*final(document)) == document_strings(*old(document)),
        document_lists(*final(document)) == document_lists(*old(document)).insert(
            seq![outer@, inner@, key@],
            document_lists(*old(document))[seq![outer@, inner@, key@]].remove(index as int),
        ),
        extended(document_text(*final(document)), document_text(*old(document))),
{
    let tables = document.get_mut(outer).and_then(Item::as_table_like_mut);
    let table = tables.and_then(|tables| tables.get_mut(inner));
    let item = table.and_then(Item::as_table_like_mut).and_then(|table| table.get_mut(key));
    if let Some(array) = item.and_then(Item::as_array_mut) {
        array.remove(index);
    }
}

/// Calls `DocumentMut::to_string`.
#[verifier::external_body]
fn render_document(document: &DocumentMut) -> (r: String)
    ensures
        r@ == document_text(*document),
{
    document.to_string()
}

/// Why an edit is refused.
#[derive(Debug)]
pub enum EditError {
    Parse(String),
    MissingDefaultGroup,
    MissingWants(String),
    Write { path: String, reason: String },
}

/// What an [`EditError`] says.
#[verifier::ext_equal]
pub enum EditErrorModel {
    Parse(Seq<char>),
    MissingDefaultGroup,
    MissingWants(Seq<char>),
    Write { path: Seq<char>, reason: Seq<char> },
}

impl View for EditError {
    type V = EditErrorModel;

    open spec fn view(&self) -> EditErrorModel {
        match *self {
            EditError::Parse(message) => EditErrorModel::Parse(message@),
            EditError::MissingDefaultGroup => EditErrorModel::MissingDefaultGroup,
            EditError::MissingWants(group) => EditErrorModel::MissingWants(group@),
            EditError::Write { path, reason } => EditErrorModel::Write {
                path: path@,
                reason: reason@,
            },
        }
    }
}

/// The text of an edit error.
pub open spec fn edit_error_message(error: EditErrorModel) -> Seq<char> {
    match error {
        EditErrorModel::Parse(message) => "manager TOML is invalid: "@ + message,
        EditErrorModel::MissingDefaultGroup => "manager TOML is missing string default_group"@,
        EditErrorModel::MissingWants(group) => "manager TOML is missing [groups."@ + group
            + "].wants array"@,
        EditErrorModel::Write { path, reason } => "failed to write "@ + path + ": "@ + reason,
    }
}

impl EditError {
    /// The text of the error.
    pub fn message(&self) -> (r: String)
        ensures
            r@ == edit_error_message(self@),
    {
        match self {
            EditError::Parse(message) => text::concat2(
                "manager TOML is invalid: ",
                message.as_str(),
            ),
            EditError::MissingDefaultGroup => text::owned(
                "manager TOML is missing string default_group",
            ),
            EditError::MissingWants(group) => text::concat3(
                "manager TOML is missing [groups.",
                group.as_str(),
                "].wants array",
            ),
            EditError::Write { path, reason } => {
                let mut r = text::concat3("failed to write ", path.as_str(), ": ");
                r.append(reason.as_str());
                r
            },
        }
    }
}

/// What an edit does to the list of a group.
#[derive(Clone, Copy, Debug, PartialEq, Eq, Structural)]
pub enum Edit {
    Keep,
    Add,
    Remove(usize),
}

/// The first place of a name in a list.
pub open spec fn place(list: Items, id: Seq<char>) -> Option<int> {
    search::first_where(|i: int| list[i] == Some(id), list.len())
}

/// The list of a group with a service added or taken out.
pub open spec fn edited(list: Items, id: Seq<char>, enabled: bool) -> Items {
    match place(list, id) {
        None => if enabled {
            list.push(Some(id))
        } else {
            list
        },
        Some(i) => if enabled {
            list
        } else {
            list.remove(i)
        },
    }
}

/// What an edit does to a list: a service is added at the end where it is not listed, and
/// its first mention is taken out where it is.
pub fn plan_edit(list: &Vec<Option<String>>, service: &ServiceId, enabled: bool) -> (r: Edit)
    ensures
        match r {
            Edit::Keep => edited(items(list@), service@, enabled) == items(list@)
                && (place(items(list@), service@) is Some == enabled),
            Edit::Add => enabled && place(items(list@), service@) is None,
            Edit::Remove(i) => !enabled && place(items(list@), service@) == Some(i as int) && i
                < list@.len(),
        },
{
    let ghost all = items(list@);
    let ghost holds = |i: int| all[i] == Some(service@);
    let mut i: usize = 0;
    while i < list.len()
        invariant
            all == items(list@),
            holds == (|i: int| all[i] == Some(service@)),
            i <= list@.len(),
            forall|k: int| 0 <= k < i ==> !#[trigger] holds(k),
        decreases list@.len() - i,
    {
        proof {
            assert(all[i as int] == text::optional_text(list@[i as int]));
        }
        let found = match &list[i] {
            Some(name) => text::same_text(name.as_str(), service.as_str()),
            None => false,
        };
        if found {
            proof {
                search::first_where_is(holds, all.len(), i as int);
            }
            return if enabled {
                Edit::Keep
            } else {
                Edit::Remove(i)
            };
        }
        i = i + 1;
    }
    proof {
        search::first_where_none(holds, all.len());
    }
    if enabled {
        Edit::Add
    } else {
        Edit::Keep
    }
}

/// An edit makes a service a member, or no member where it was listed once at most; every
/// other name stays a member or not as it was, and the same edit again changes nothing.
pub proof fn edit_law(list: Items, id: Seq<char>, other: Seq<char>)
    requires
        other != id,
        forall|i: int, j: int|
            0 <= i < list.len() && 0 <= j < list.len() && list[i] == Some(id) && list[j] == Some(
                id,
            ) ==> i == j,
    ensures
        edited(list, id, true).contains(Some(id)),
        !edited(list, id, false).contains(Some(id)),
        edited(list, id, true).contains(Some(other)) <==> list.contains(Some(other)),
        edited(list, id, false).contains(Some(other)) <==> list.contains(Some(other)),
        edited(edited(list, id, true), id, true) == edited(list, id, true),
        edited(edited(list, id, false), id, false) == edited(list, id, false),
{
    let holds = |i: int| list[i] == Some(id);
    search::first_where_law(holds, list.len());
    let added = edited(list, id, true);
    let taken = edited(list, id, false);
    match place(list, id) {
        None => {
            assert(added[list.len() as int] == Some(id));
            if list.contains(Some(other)) {
                let k = choose|k: int| 0 <= k < list.len() && list[k] == Some(other);
                assert(added[k] == Some(other));
            }
            if added.contains(Some(other)) {
                let k = choose|k: int| 0 <= k < added.len() && added[k] == Some(other);
                assert(list[k] == Some(other));
            }
            if taken.contains(Some(id)) {
                let k = choose|k: int| 0 <= k < list.len() && list[k] == Some(id);
                assert(holds(k));
            }
        },
        Some(i) => {
            assert(holds(i));
            assert(added.contains(Some(id)));
            if taken.contains(Some(id)) {
                let k = choose|k: int| 0 <= k < taken.len() && taken[k] == Some(id);
                assert(list[if k < i {
                    k
                } else {
                    k + 1
                }] == Some(id));
            }
            if list.contains(Some(other)) {
                let k = choose|k: int| 0 <= k < list.len() && list[k] == Some(other);
                assert(taken[if k < i {
                    k
                } else {
                    k - 1
                }] == Some(other));
            }
            if taken.contains(Some(other)) {
                let k = choose|k: int| 0 <= k < taken.len() && taken[k] == Some(other);
                assert(list[if k < i {
                    k
                } else {
                    k + 1
                }] == Some(other));
            }
        },
    }
    let again = |i: int| added[i] == Some(id);
    search::first_where_law(again, added.len());
    if place(added, id) is None {
        let k = choose|k: int| 0 <= k < added.len() && added[k] == Some(id);
        assert(again(k));
    }
    let still = |i: int| taken[i] == Some(id);
    search::first_where_law(still, taken.len());
    if let Some(k) = place(taken, id) {
        assert(still(k));
        assert(taken.contains(taken[k]));
    }
}

/// The keys that lead to the list of what a group wants.
pub open spec fn wants_path(group: Seq<char>) -> Seq<Seq<char>> {
    seq!["groups"@, group, "wants"@]
}

/// Whether a text is the written form of a document that differs from another one only in
/// the list of one group.
pub open spec fn rewritten(
    strings: Map<Seq<char>, Seq<char>>,
    lists: Map<Seq<Seq<char>>, Items>,
    group: Seq<char>,
    list: Items,
    result: Seq<char>,
) -> bool {
    exists|d: DocumentMut|
        document_text(d) == result && #[trigger] document_strings(d) == strings && document_lists(
            d,
        ) == lists.insert(wants_path(group), list)
}

/// Whether a text is the written form of a document after an edit: as it was where the edit
/// changes nothing, and else with one piece put in for a service that is added, or with one
/// piece less for one that is taken out.
pub open spec fn written_after(
    written: Seq<char>,
    changed: bool,
    enabled: bool,
    result: Seq<char>,
) -> bool {
    if !changed {
        result == written
    } else if enabled {
        extended(written, result)
    } else {
        extended(result, written)
    }
}

/// Adds a service to the list of the default group, or takes it out. The rest of the
/// document keeps its comments and its formatting.
pub fn edit_enabled(source: &str, service: &ServiceId, enabled: bool) -> (r: Result<
    String,
    EditError,
>)
    ensures
        match read_document(source@) {
            Err(message) => r matches Err(e) && e@ == EditErrorModel::Parse(message),
            Ok((strings, lists, written)) => if !strings.contains_key("default_group"@) {
                r == Err::<String, EditError>(EditError::MissingDefaultGroup)
            } else {
                let group = strings["default_group"@];
                if !lists.contains_key(wants_path(group)) {
                    r matches Err(e) && e@ == EditErrorModel::MissingWants(group)
                } else {
                    let before = lists[wants_path(group)];
                    let list = edited(before, service@, enabled);
                    &&& r is Ok
                    &&& rewritten(strings, lists, group, list, r->Ok_0@)
                    &&& written_after(written, list != before, enabled, r->Ok_0@)
                }
            },
        },
{
    let mut document = match parse_document(source) {
        Ok(document) => document,
        Err(message) => return Err(EditError::Parse(message)),
    };
    let group = match string_at(&document, "default_group") {
        Some(group) => group,
        None => return Err(EditError::MissingDefaultGroup),
    };
    let list = match list_at(&document, "groups", group.as_str(), "wants") {
        Some(list) => list,
        None => return Err(EditError::MissingWants(group)),
    };
    let ghost all = items(list@);
    let ghost before = document_lists(document);
    proof {
        search::first_where_law(|i: int| all[i] == Some(service@), all.len());
    }
    match plan_edit(&list, service, enabled) {
        Edit::Keep => {
            proof {
                assert(before.insert(wants_path(group@), all) =~= before);
            }
        },
        Edit::Add => {
            push_item(&mut document, "groups", group.as_str(), "wants", service.as_str());
            proof {
                assert(all.push(Some(service@)).len() != all.len());
            }
        },
        Edit::Remove(index) => {
            proof {
                assert(all[index as int] == Some(service@));
            }
            remove_item(&mut document, "groups", group.as_str(), "wants", index);
            proof {
                assert(all.remove(index as int).len() != all.len());
            }
        },
    }
    proof {
        assert(document_strings(document) == document_strings(document));
    }
    Ok(render_document(&document))
}

/// Where a service is put and taken from: the end of the list, and its first place. Nothing
/// else moves.
pub proof fn edit_place_law(list: Items, id: Seq<char>)
    ensures
        !list.contains(Some(id)) ==> edited(list, id, true) == list.push(Some(id)) && edited(
            list,
            id,
            false,
        ) == list,
        list.contains(Some(id)) ==> edited(list, id, true) == list && exists|i: int|
            0 <= i < list.len() && list[i] == Some(id) && (forall|k: int|
                0 <= k < i ==> list[k] != Some(id)) && edited(list, id, false)
                == #[trigger] list.remove(i),
        wants_path(id) == seq!["groups"@, id, "wants"@],
{
    let holds = |i: int| list[i] == Some(id);
    search::first_where_law(holds, list.len());
    if let Some(i) = place(list, id) {
        assert(holds(i));
        assert(list[i] == Some(id));
        assert forall|k: int| 0 <= k < i implies list[k] != Some(id) by {
            assert(!holds(k));
        }
        assert(edited(list, id, false) == list.remove(i));
    } else if list.contains(Some(id)) {
        let k = choose|k: int| 0 <= k < list.len() && list[k] == Some(id);
        assert(holds(k));
    }
}

} // verus!
