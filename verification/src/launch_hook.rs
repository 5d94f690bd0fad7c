//! Starting along with the service: a hook in the service's own configuration, a TOML
//! text, that starts the companion with every session.
//!
//! Whether the companion starts along is not recorded anywhere else: it does if the hook
//! is there. Only hooks whose command names the companion are ever touched.

use crate::text::{
    contains, is_white_space, join2, join3, law_occurrence, law_trimmed, occurs_in, trim, trimmed,
};
use vstd::prelude::*;

verus! {

/// A command that holds this name is a hook of ours.
pub const HOOK_MARKER: &'static str = "kimi-pet";

/// The event that runs the hook.
pub const HOOK_EVENT: &'static str = "SessionStart";

/// What a key of a TOML table holds: a list of tables, a table, a text, or some other
/// value, told apart by its notation.
pub ghost enum TomlItem {
    Tables(Seq<Map<Seq<char>, TomlItem>>),
    Table(Map<Seq<char>, TomlItem>),
    Text(Seq<char>),
    Other(Seq<char>),
}

/// One table of a document as it is written: its header and its own keys, with the
/// comments and the layout that belong to them. Its owner is the index, in the list of
/// tables that a key of the top level holds, of the table that it is or lies in; none
/// where it is part of no such list. Its place is the number by which the tables are
/// ordered in the text.
pub ghost struct Piece {
    pub owner: Option<(Seq<char>, int)>,
    pub place: usize,
    pub text: Seq<char>,
}

/// How a document is written: the keys of the top level first, then the tables that have
/// something to write, in order, then what follows the last of them.
#[verifier::ext_equal]
pub ghost struct Layout {
    pub head: Seq<char>,
    pub tables: Seq<Piece>,
    pub tail: Seq<char>,
}

/// What a TOML text holds: what its keys hold, and how it is laid out; and for every key
/// the gap where a table is written that has no place of its own and is the only one in
/// the list at that key, as the number of tables before it.
pub ghost struct TomlText {
    pub items: Map<Seq<char>, TomlItem>,
    pub layout: Layout,
    pub gap: spec_fn(Seq<char>) -> int,
}

/// Where a table with a header of its own stands in the text that it was read from, and
/// where the tables in it stand.
pub ghost struct Places {
    pub own: Option<usize>,
    pub within: Seq<Places>,
}

/// `toml_edit::DocumentMut`, opaque: what its keys hold is `document_items`, and how it is
/// written is `document_layout`.
#[verifier::external_type_specification]
#[verifier::external_body]
pub struct ExDocument(toml_edit::DocumentMut);

/// What the keys of a document hold.
pub uninterp spec fn document_items(document: toml_edit::DocumentMut) -> Map<Seq<char>, TomlItem>;

/// How a document is written.
pub uninterp spec fn document_layout(document: toml_edit::DocumentMut) -> Layout;

/// Where a table is written that has no place of its own and is the only one in the list
/// at a key: behind so many of the tables that are written.
pub uninterp spec fn document_gap(document: toml_edit::DocumentMut, key: Seq<char>) -> int;

/// `toml_edit::Table`, opaque: where it and the tables in it stand is `table_places`.
#[verifier::external_type_specification]
#[verifier::external_body]
pub struct ExTable(toml_edit::Table);

/// Where a table and the tables in it stand.
pub uninterp spec fn table_places(table: toml_edit::Table) -> Places;

/// A document that was read from a text or made without keys, and to which nothing was
/// added since but lists without tables.
pub uninterp spec fn untouched(document: toml_edit::DocumentMut) -> bool;

/// A document that was untouched until one table was added at the end of a list, to be
/// written behind all that is in that list.
pub uninterp spec fn extended(document: toml_edit::DocumentMut) -> bool;

/// What `toml_edit` reads in a text, or how it words its complaint where the text is no
/// TOML.
pub uninterp spec fn toml_read(text: Seq<char>) -> Result<TomlText, Seq<char>>;

/// What the keys in a TOML text hold; `None` where the text is no TOML.
pub open spec fn toml_parsed(text: Seq<char>) -> Option<Map<Seq<char>, TomlItem>> {
    match toml_read(text) {
        Ok(read) => Some(read.items),
        Err(_) => None,
    }
}

/// The texts one after the other.
pub open spec fn joined(texts: Seq<Seq<char>>) -> Seq<char>
    decreases texts.len(),
{
    if texts.len() == 0 {
        Seq::empty()
    } else {
        joined(texts.drop_last()) + texts.last()
    }
}

pub open spec fn piece_texts(tables: Seq<Piece>) -> Seq<Seq<char>> {
    Seq::new(tables.len(), |i: int| tables[i].text)
}

/// The text of a layout.
pub open spec fn written(layout: Layout) -> Seq<char> {
    layout.head + joined(piece_texts(layout.tables)) + layout.tail
}

pub open spec fn blank_layout() -> Layout {
    Layout { head: Seq::empty(), tables: Seq::empty(), tail: Seq::empty() }
}

/// What becomes of a piece when the `index`th table is taken out of the list at `key`: the
/// pieces of that table go, and the tables behind it move up.
pub open spec fn left_of(piece: Piece, key: Seq<char>, index: int) -> Option<Piece> {
    match piece.owner {
        Some((k, i)) if k == key && i == index => None,
        Some((k, i)) if k == key && i > index => Some(
            Piece { owner: Some((k, i - 1)), ..piece },
        ),
        _ => Some(piece),
    }
}

pub open spec fn pieces_without(tables: Seq<Piece>, key: Seq<char>, index: int) -> Seq<Piece>
    decreases tables.len(),
{
    if tables.len() == 0 {
        Seq::empty()
    } else {
        let front = pieces_without(tables.drop_last(), key, index);
        match left_of(tables.last(), key, index) {
            Some(piece) => front.push(piece),
            None => front,
        }
    }
}

/// The layout when the `index`th table is taken out of the list at `key`: the rest is
/// written as before.
pub open spec fn layout_without(layout: Layout, key: Seq<char>, index: int) -> Layout {
    Layout { tables: pieces_without(layout.tables, key, index), ..layout }
}

/// The layout when a table is added behind the first `at` tables that are written.
pub open spec fn layout_with(layout: Layout, at: int, piece: Piece) -> Layout {
    Layout { tables: layout.tables.insert(at, piece), ..layout }
}

/// The piece is part of the list at a key.
pub open spec fn is_part(piece: Piece, key: Seq<char>) -> bool {
    piece.owner matches Some((k, _)) && k == key
}

/// A table that is added to the list at `key`, of `count` tables so far, is written behind
/// the first `at` tables: where it has no place of its own and the list is empty, in the
/// gap; where it has the place of a table of the list, right behind that table.
pub open spec fn is_written_at(
    layout: Layout,
    key: Seq<char>,
    count: nat,
    gap: int,
    place: Option<usize>,
    at: int,
) -> bool {
    match place {
        None => count == 0 && at == gap,
        Some(p) => 0 < at <= layout.tables.len() && layout.tables[at - 1].place == p && is_part(
            layout.tables[at - 1],
            key,
        ),
    }
}

/// Nothing of the list at `key` is written behind the first `at` tables.
pub open spec fn is_behind(layout: Layout, key: Seq<char>, at: int) -> bool {
    forall|n: int| at <= n < layout.tables.len() ==> !is_part(#[trigger] layout.tables[n], key)
}

/// The tables are written in the order of their places, and no two have the same.
pub open spec fn is_ordered(layout: Layout) -> bool {
    forall|n: int, m: int|
        0 <= n < m < layout.tables.len() ==> (#[trigger] layout.tables[n]).place < (
        #[trigger] layout.tables[m]).place
}

pub open spec fn places_of(tables: Seq<&toml_edit::Table>) -> Seq<Places> {
    Seq::new(tables.len(), |i: int| table_places(*tables[i]))
}

/// One of the tables, or one within them, stands at `place`.
pub open spec fn stands(list: Seq<Places>, place: usize) -> bool
    decreases list,
{
    if list.len() == 0 {
        false
    } else {
        stands(list.drop_last(), place) || list.last().own == Some(place) || stands(
            list.last().within,
            place,
        )
    }
}

/// The tables are written in the order of their places; the pieces of the list at `key`
/// stand where the tables of the list and those within them do; and each table of the list
/// has a place.
pub open spec fn is_placed(layout: Layout, key: Seq<char>, list: Seq<Places>) -> bool {
    &&& is_ordered(layout)
    &&& forall|n: int|
        0 <= n < layout.tables.len() && is_part(#[trigger] layout.tables[n], key) ==> stands(
            list,
            layout.tables[n].place,
        )
    &&& forall|place: usize| #[trigger]
        stands(list, place) ==> exists|n: int|
            0 <= n < layout.tables.len() && is_part(#[trigger] layout.tables[n], key)
                && layout.tables[n].place == place
    &&& forall|i: int| 0 <= i < list.len() ==> (#[trigger] list[i]).own is Some
}

/// The gaps lie among the tables.
pub open spec fn has_gaps(document: toml_edit::DocumentMut) -> bool {
    forall|key: Seq<char>|
        0 <= #[trigger] document_gap(document, key) <= document_layout(document).tables.len()
}

/// These are the gaps of the document.
pub open spec fn are_gaps(gap: spec_fn(Seq<char>) -> int, document: toml_edit::DocumentMut) -> bool {
    forall|key: Seq<char>| #[trigger] document_gap(document, key) == gap(key)
}

pub open spec fn no_gap() -> spec_fn(Seq<char>) -> int {
    |key: Seq<char>| 0
}

/// Every owner in a layout is a table.
pub open spec fn is_owned(items: Map<Seq<char>, TomlItem>, layout: Layout) -> bool {
    forall|n: int|
        0 <= n < layout.tables.len() ==> ((#[trigger] layout.tables[n]).owner matches Some((key, i))
            ==> tables_at(items, key) is Some && 0 <= i < tables_at(items, key)->0.len())
}

pub open spec fn no_items() -> Map<Seq<char>, TomlItem> {
    Map::empty()
}

pub open spec fn no_tables() -> Seq<Map<Seq<char>, TomlItem>> {
    Seq::empty()
}

/// The tables that a key holds, if it holds a list of tables.
pub open spec fn tables_at(items: Map<Seq<char>, TomlItem>, key: Seq<char>) -> Option<
    Seq<Map<Seq<char>, TomlItem>>,
> {
    match items[key] {
        TomlItem::Tables(tables) if items.dom().contains(key) => Some(tables),
        _ => None,
    }
}

/// The text that a key of a table holds, if it holds a text.
pub open spec fn text_at(table: Map<Seq<char>, TomlItem>, key: Seq<char>) -> Option<Seq<char>> {
    match table[key] {
        TomlItem::Text(text) if table.dom().contains(key) => Some(text),
        _ => None,
    }
}

/// The texts that a key holds in each table of a list.
pub open spec fn texts_at(tables: Seq<Map<Seq<char>, TomlItem>>, key: Seq<char>) -> Seq<
    Option<Seq<char>>,
> {
    Seq::new(tables.len(), |i: int| text_at(tables[i], key))
}

pub open spec fn optional_texts(list: Seq<Option<String>>) -> Seq<Option<Seq<char>>> {
    Seq::new(
        list.len(),
        |i: int|
            match list[i] {
                Some(text) => Some(text@),
                None => None,
            },
    )
}

/// `str::parse::<DocumentMut>` of `toml_edit`: the document that a text denotes, or the
/// words of the complaint where the text is no TOML. Both depend on the text alone. A list
/// of tables in a text has at least one.
#[verifier::external_body]
fn parse_document(text: &str) -> (r: Result<toml_edit::DocumentMut, String>)
    ensures
        r is Ok <==> toml_read(text@) is Ok,
        r matches Ok(document) ==> toml_read(text@)->Ok_0.items == document_items(document),
        r matches Ok(document) ==> toml_read(text@)->Ok_0.layout == document_layout(document),
        r matches Ok(document) ==> are_gaps(toml_read(text@)->Ok_0.gap, document),
        r matches Ok(document) ==> has_gaps(document),
        r matches Ok(document) ==> untouched(document) && writable(document_items(document)),
        r matches Ok(document) ==> is_owned(document_items(document), document_layout(document)),
        r matches Err(words) ==> toml_read(text@)->Err_0 == words@,
{
    text.parse::<toml_edit::DocumentMut>().map_err(|e| e.to_string())
}

/// `DocumentMut::new`: a document without keys.
#[verifier::external_body]
fn new_document() -> (r: toml_edit::DocumentMut)
    ensures
        document_items(r) == no_items(),
        document_layout(r) == blank_layout(),
        are_gaps(no_gap(), r),
        untouched(r),
{
    toml_edit::DocumentMut::new()
}

/// `Table::contains_key` on the top level of a document.
#[verifier::external_body]
fn contains_key(document: &toml_edit::DocumentMut, key: &str) -> (r: bool)
    ensures
        r == document_items(*document).dom().contains(key@),
{
    document.as_table().contains_key(key)
}

/// Assignment through `DocumentMut`'s `IndexMut` of an empty `ArrayOfTables`: the key then
/// holds a list without tables, which is not written, and the other keys what they held.
#[verifier::external_body]
fn put_empty_tables(document: &mut toml_edit::DocumentMut, key: &str)
    requires
        !document_items(*old(document)).dom().contains(key@),
    ensures
        document_items(*final(document)) == document_items(*old(document)).insert(
            key@,
            TomlItem::Tables(Seq::empty()),
        ),
        document_layout(*final(document)) == document_layout(*old(document)),
        document_gap(*final(document), key@) == document_gap(*old(document), key@),
        untouched(*old(document)) ==> untouched(*final(document)),
{
    document[key] = toml_edit::Item::ArrayOfTables(toml_edit::ArrayOfTables::new());
}

/// `Item::as_array_of_tables` on a key of a document, `ArrayOfTables::iter`, and in each
/// table `Table::get` with `Item::as_str`: of every table in the list that `key` holds,
/// the text that `field` holds, if it holds a text.
#[verifier::external_body]
fn table_texts(document: &toml_edit::DocumentMut, key: &str, field: &str) -> (r: Option<
    Vec<Option<String>>,
>)
    ensures
        r is Some <==> tables_at(document_items(*document), key@) is Some,
        r matches Some(list) ==> optional_texts(list@) == texts_at(
            tables_at(document_items(*document), key@)->0,
            field@,
        ),
{
    let tables = document.as_table().get(key)?.as_array_of_tables()?;
    let text = |t: &toml_edit::Table| Some(t.get(field)?.as_str()?.to_string());
    Some(tables.iter().map(text).collect())
}

/// `ArrayOfTables::remove` on the list that a key of a document holds: the table at the
/// index is gone, and the order of the others is kept. The tables of an untouched document
/// keep their places in the text, and so does the gap for this list, which lies behind a
/// table under an earlier key.
#[verifier::external_body]
fn remove_table(document: &mut toml_edit::DocumentMut, key: &str, index: usize)
    requires
        tables_at(document_items(*old(document)), key@) is Some,
        index < tables_at(document_items(*old(document)), key@)->0.len(),
    ensures
        document_items(*final(document)) == document_items(*old(document)).insert(
            key@,
            TomlItem::Tables(
                tables_at(document_items(*old(document)), key@)->0.remove(index as int),
            ),
        ),
        untouched(*old(document)) ==> document_layout(*final(document)) == layout_without(
            document_layout(*old(document)),
            key@,
            index as int,
        ),
        untouched(*old(document)) ==> document_gap(*final(document), key@) == pieces_without(
            document_layout(*old(document)).tables.take(document_gap(*old(document), key@)),
            key@,
            index as int,
        ).len(),
        untouched(*old(document)) ==> untouched(*final(document)),
{
    if let Some(tables) = document[key].as_array_of_tables_mut() {
        tables.remove(index);
    }
}

/// `Item::as_array_of_tables` on a key of a document and `ArrayOfTables::iter`: the tables
/// of the list that the key holds. In an untouched document the places of all tables with
/// a header are those that they were read with, in the order of the text.
#[verifier::external_body]
fn list_tables<'a>(document: &'a toml_edit::DocumentMut, key: &str) -> (r: Option<
    Vec<&'a toml_edit::Table>,
>)
    ensures
        r is Some <==> tables_at(document_items(*document), key@) is Some,
        r matches Some(list) ==> list.len() == tables_at(document_items(*document), key@)->0.len(),
        r matches Some(list) ==> untouched(*document) ==> is_placed(
            document_layout(*document),
            key@,
            places_of(list@),
        ),
{
    Some(document.as_table().get(key)?.as_array_of_tables()?.iter().collect())
}

/// `Table::iter`, `Item::as_table` and `Item::as_array_of_tables`: the tables that a table
/// holds, alone or in lists.
#[verifier::external_body]
fn tables_in<'a>(table: &'a toml_edit::Table) -> (r: Vec<&'a toml_edit::Table>)
    ensures
        places_of(r@) == table_places(*table).within,
{
    let list = |i: &'a toml_edit::Item| i.as_array_of_tables().into_iter().flatten();
    table.iter().flat_map(|(_, i)| i.as_table().into_iter().chain(list(i))).collect()
}

/// `Table::position`: the place of a table.
#[verifier::external_body]
fn place_of(table: &toml_edit::Table) -> (r: Option<usize>)
    ensures
        r == table_places(*table).own,
{
    table.position()
}

/// `ArrayOfTables::push` on the list that a key of a document holds, of a `Table` that is
/// given two texts under two keys, and its place in the text by `Table::set_position`, if
/// it is to have one: the list ends in a table with just these. A text with a longer row
/// of quotation marks could not be written: the writer counts them in a byte.
#[verifier::external_body]
fn push_table(
    document: &mut toml_edit::DocumentMut,
    key: &str,
    first: (&str, &str),
    second: (&str, &str),
    place: Option<usize>,
)
    requires
        tables_at(document_items(*old(document)), key@) is Some,
        first.0@ != second.0@,
        quotes_fit(first.1@),
        quotes_fit(second.1@),
    ensures
        document_items(*final(document)) == document_items(*old(document)).insert(
            key@,
            TomlItem::Tables(
                tables_at(document_items(*old(document)), key@)->0.push(
                    no_items().insert(first.0@, TomlItem::Text(first.1@)).insert(
                        second.0@,
                        TomlItem::Text(second.1@),
                    ),
                ),
            ),
        ),
        forall|at: int|
            untouched(*old(document)) && #[trigger] is_written_at(
                document_layout(*old(document)),
                key@,
                tables_at(document_items(*old(document)), key@)->0.len(),
                document_gap(*old(document), key@),
                place,
                at,
            ) ==> exists|piece: Piece|
                document_layout(*final(document)) == #[trigger] layout_with(
                    document_layout(*old(document)),
                    at,
                    piece,
                ),
        forall|at: int|
            untouched(*old(document)) && #[trigger] is_written_at(
                document_layout(*old(document)),
                key@,
                tables_at(document_items(*old(document)), key@)->0.len(),
                document_gap(*old(document), key@),
                place,
                at,
            ) && is_behind(document_layout(*old(document)), key@, at) ==> extended(*final(document)),
{
    let mut table = toml_edit::Table::new();
    table[first.0] = toml_edit::value(first.1);
    table[second.0] = toml_edit::value(second.1);
    if let Some(place) = place {
        table.set_position(place);
    }
    if let Some(tables) = document[key].as_array_of_tables_mut() {
        tables.push(table);
    }
}

/// `Table::remove` on the top level of a document. With a list without tables, nothing
/// goes that was written.
#[verifier::external_body]
fn remove_key(document: &mut toml_edit::DocumentMut, key: &str)
    ensures
        document_items(*final(document)) == document_items(*old(document)).remove(key@),
        tables_at(document_items(*old(document)), key@) == Some(no_tables()) ==> document_layout(
            *final(document),
        ) == document_layout(*old(document)),
        untouched(*old(document)) ==> untouched(*final(document)),
{
    document.as_table_mut().remove(key);
}

/// No key of the top level holds a list without tables, which has no notation.
pub open spec fn writable(items: Map<Seq<char>, TomlItem>) -> bool {
    forall|key: Seq<char>| #[trigger]
        tables_at(items, key) is Some ==> tables_at(items, key)->0.len() > 0
}

/// How many characters in a row are `mark` at the end of a text.
pub open spec fn marks_at_end(text: Seq<char>, mark: char) -> nat
    decreases text.len(),
{
    if text.len() > 0 && text.last() == mark {
        marks_at_end(text.drop_last(), mark) + 1
    } else {
        0
    }
}

/// Nowhere in a text stand more than 255 quotation marks of one kind in a row.
pub open spec fn quotes_fit(text: Seq<char>) -> bool {
    forall|i: int|
        0 <= i <= text.len() ==> marks_at_end(#[trigger] text.take(i), '\'') <= 255
            && marks_at_end(text.take(i), '"') <= 255
}

/// `DocumentMut`'s `Display`: the document as it is laid out. From the text the same
/// document can be read again, as long as no more was done to it than the two properties
/// say; and where it has keys, they are there to be seen.
#[verifier::external_body]
fn document_text(document: &toml_edit::DocumentMut) -> (r: String)
    ensures
        r@ == written(document_layout(*document)),
        (untouched(*document) || extended(*document)) && writable(document_items(*document))
            ==> toml_parsed(r@) == Some(document_items(*document)),
        (untouched(*document) || extended(*document)) && writable(document_items(*document))
            && document_items(*document) != no_items() ==> trimmed(r@).len() > 0,
{
    document.to_string()
}

/// A hook of ours: its command names the companion.
pub open spec fn is_ours(hook: Map<Seq<char>, TomlItem>) -> bool {
    text_at(hook, "command"@) matches Some(command) && occurs_in(HOOK_MARKER@, command)
}

/// The hooks that are not ours, in their order.
pub open spec fn others(hooks: Seq<Map<Seq<char>, TomlItem>>) -> Seq<Map<Seq<char>, TomlItem>>
    decreases hooks.len(),
{
    if hooks.len() == 0 {
        Seq::empty()
    } else {
        let rest = others(hooks.drop_first());
        if is_ours(hooks[0]) {
            rest
        } else {
            seq![hooks[0]] + rest
        }
    }
}

/// One of the hooks is ours.
pub open spec fn any_ours(hooks: Seq<Map<Seq<char>, TomlItem>>) -> bool {
    exists|i: int| 0 <= i < hooks.len() && is_ours(#[trigger] hooks[i])
}

/// The configuration starts the companion.
pub open spec fn has_our_hook(items: Map<Seq<char>, TomlItem>) -> bool {
    tables_at(items, "hooks"@) matches Some(hooks) && any_ours(hooks)
}

/// The hook that runs a command when a session starts.
pub open spec fn session_hook(command: Seq<char>) -> Map<Seq<char>, TomlItem> {
    no_items().insert("event"@, TomlItem::Text(HOOK_EVENT@)).insert(
        "command"@,
        TomlItem::Text(command),
    )
}

/// The hooks of a configuration: none where it says nothing of hooks, and no answer where
/// it has something else under that name.
pub open spec fn hooks_of(items: Map<Seq<char>, TomlItem>) -> Option<
    Seq<Map<Seq<char>, TomlItem>>,
> {
    if items.dom().contains("hooks"@) {
        tables_at(items, "hooks"@)
    } else {
        Some(Seq::empty())
    }
}

/// The configuration with these hooks; without a word of hooks where there are none.
pub open spec fn with_hooks(
    items: Map<Seq<char>, TomlItem>,
    hooks: Seq<Map<Seq<char>, TomlItem>>,
) -> Map<Seq<char>, TomlItem> {
    if hooks.len() == 0 {
        items.remove("hooks"@)
    } else {
        items.insert("hooks"@, TomlItem::Tables(hooks))
    }
}

/// The configuration after the switch: without the hooks of ours that it had, and with
/// one that runs `command`, if there is to be one.
pub open spec fn switched(
    items: Map<Seq<char>, TomlItem>,
    hooks: Seq<Map<Seq<char>, TomlItem>>,
    command: Option<Seq<char>>,
) -> Map<Seq<char>, TomlItem> {
    match command {
        Some(command) => with_hooks(items, others(hooks).push(session_hook(command))),
        None => with_hooks(items, others(hooks)),
    }
}

/// What a text says as a configuration; a text without content says nothing.
pub open spec fn configuration(text: Seq<char>) -> Option<TomlText> {
    if trimmed(text).len() == 0 {
        Some(TomlText { items: no_items(), layout: blank_layout(), gap: no_gap() })
    } else {
        match toml_read(text) {
            Ok(read) => Some(read),
            Err(_) => None,
        }
    }
}

/// What the keys of a configuration hold.
pub open spec fn configured(text: Seq<char>) -> Option<Map<Seq<char>, TomlItem>> {
    match configuration(text) {
        Some(read) => Some(read.items),
        None => None,
    }
}

fn is_our_command(command: &Option<String>) -> (r: bool)
    ensures
        r == (command matches Some(text) && occurs_in(HOOK_MARKER@, text@)),
{
    match command {
        Some(text) => contains(text.as_str(), HOOK_MARKER),
        None => false,
    }
}

fn hook_exists(document: &toml_edit::DocumentMut) -> (r: bool)
    ensures
        r == has_our_hook(document_items(*document)),
{
    match table_texts(document, "hooks", "command") {
        Some(commands) => {
            let ghost hooks = tables_at(document_items(*document), "hooks"@)->0;
            let ghost texts = optional_texts(commands@);
            let mut i: usize = 0;
            while i < commands.len()
                invariant
                    i <= commands.len(),
                    tables_at(document_items(*document), "hooks"@) == Some(hooks),
                    texts == optional_texts(commands@),
                    texts == texts_at(hooks, "command"@),
                    forall|k: int| 0 <= k < i ==> !is_ours(#[trigger] hooks[k]),
                decreases commands.len() - i,
            {
                proof {
                    assert(texts.len() == hooks.len());
                    assert(texts[i as int] == text_at(hooks[i as int], "command"@));
                }
                if is_our_command(&commands[i]) {
                    assert(is_ours(hooks[i as int]));
                    return true;
                }
                i = i + 1;
            }
            proof {
                assert(texts.len() == hooks.len());
            }
            false
        },
        None => false,
    }
}

/// The text of a configuration starts the companion.
pub open spec fn starts_along(text: Seq<char>) -> bool {
    toml_parsed(text) matches Some(items) && has_our_hook(items)
}

/// Whether the companion starts along with the service, given the text of the
/// configuration, if it could be read.
pub fn get_launch_hook(text: Option<&str>) -> (r: bool)
    ensures
        r == (text matches Some(text) && starts_along(text@)),
{
    match text {
        Some(text) => match parse_document(text) {
            Ok(document) => hook_exists(&document),
            Err(_) => false,
        },
        None => false,
    }
}

/// The command that starts the companion and lets it outlive the hook.
pub open spec fn start_command(exe: Seq<char>, windows: bool) -> Seq<char> {
    if windows {
        "start \"\" \""@ + exe + "\""@
    } else {
        "nohup \""@ + exe + "\" >/dev/null 2>&1 &"@
    }
}

/// Writes the command that starts the companion.
pub fn launch_command(exe: &str, windows: bool) -> (r: String)
    ensures
        r@ == start_command(exe@, windows),
{
    if windows {
        join3("start \"\" \"", exe, "\"")
    } else {
        join3("nohup \"", exe, "\" >/dev/null 2>&1 &")
    }
}

fn marks_after(count: u64, c: char, mark: char) -> (r: u64)
    requires
        count < u64::MAX,
    ensures
        r == (if c == mark {
            count + 1
        } else {
            0
        }),
{
    if c == mark {
        count + 1
    } else {
        0
    }
}

/// Whether the command that starts the companion can be written into a configuration.
pub fn is_writable_command(exe: &str, windows: bool) -> (r: bool)
    ensures
        r == quotes_fit(start_command(exe@, windows)),
{
    let command = launch_command(exe, windows);
    let text: &str = command.as_str();
    let ghost all = text@;
    let len: usize = text.unicode_len();
    let mut single: u64 = 0;
    let mut double: u64 = 0;
    let mut i: usize = 0;
    while i < len
        invariant
            len == all.len(),
            all == text@,
            all == start_command(exe@, windows),
            i <= len,
            single <= 255,
            double <= 255,
            single == marks_at_end(all.take(i as int), '\''),
            double == marks_at_end(all.take(i as int), '"'),
            forall|k: int|
                0 <= k <= i ==> marks_at_end(#[trigger] all.take(k), '\'') <= 255
                    && marks_at_end(all.take(k), '"') <= 255,
        decreases len - i,
    {
        let c: char = text.get_char(i);
        proof {
            assert(all.take(i + 1).drop_last() =~= all.take(i as int));
            assert(all.take(i + 1).last() == c);
        }
        single = marks_after(single, c, '\'');
        double = marks_after(double, c, '"');
        i = i + 1;
        if single > 255 || double > 255 {
            assert(!quotes_fit(all)) by {
                assert(marks_at_end(all.take(i as int), '\'') > 255 || marks_at_end(
                    all.take(i as int),
                    '"',
                ) > 255);
            }
            return false;
        }
    }
    true
}

/// A text cannot end in more marks than it has characters.
proof fn lemma_marks_at_end(text: Seq<char>, mark: char)
    ensures
        marks_at_end(text, mark) <= text.len(),
    decreases text.len(),
{
    if text.len() > 0 {
        lemma_marks_at_end(text.drop_last(), mark);
    }
}

/// In a short text all quotation marks can be counted.
proof fn lemma_short_text_fits(text: Seq<char>)
    requires
        text.len() <= 255,
    ensures
        quotes_fit(text),
{
    assert forall|i: int| 0 <= i <= text.len() implies marks_at_end(#[trigger] text.take(i), '\'')
        <= 255 && marks_at_end(text.take(i), '"') <= 255 by {
        lemma_marks_at_end(text.take(i), '\'');
        lemma_marks_at_end(text.take(i), '"');
    }
}

/// Why the switch was not thrown.
pub enum HookError {
    /// The user has no home directory.
    NoHome,
    /// The configuration is there and cannot be read.
    Unreadable,
    /// The configuration is no TOML.
    Syntax { words: String },
    /// The configuration has something else under the name of hooks.
    NotTables,
    /// The companion does not know where it lies.
    NoExe,
    /// The directory of the configuration could not be made.
    NoDirectory { words: String },
    /// The configuration could not be written.
    NotWritten { words: String },
}

impl HookError {
    pub open spec fn words(self) -> Seq<char> {
        match self {
            HookError::NoHome => "找不到用户目录"@,
            HookError::Unreadable => "config.toml 无法读取，未改动"@,
            HookError::Syntax { words } => "config.toml 解析失败，请检查原有语法："@ + words@,
            HookError::NotTables => "config.toml 里 hooks 字段不是表数组，未改动"@,
            HookError::NoExe => "获取 exe 路径失败"@,
            HookError::NoDirectory { words } => "创建配置目录失败："@ + words@,
            HookError::NotWritten { words } => "写入 config.toml 失败："@ + words@,
        }
    }

    /// What the user is told.
    pub fn message(&self) -> (r: String)
        ensures
            r@ == self.words(),
    {
        match self {
            HookError::NoHome => "找不到用户目录".to_owned(),
            HookError::Unreadable => "config.toml 无法读取，未改动".to_owned(),
            HookError::Syntax { words } => join2(
                "config.toml 解析失败，请检查原有语法：",
                words.as_str(),
            ),
            HookError::NotTables => "config.toml 里 hooks 字段不是表数组，未改动".to_owned(),
            HookError::NoExe => "获取 exe 路径失败".to_owned(),
            HookError::NoDirectory { words } => join2("创建配置目录失败：", words.as_str()),
            HookError::NotWritten { words } => join2("写入 config.toml 失败：", words.as_str()),
        }
    }
}

/// A piece is part of a hook of ours.
pub open spec fn is_our_piece(piece: Piece, hooks: Seq<Map<Seq<char>, TomlItem>>) -> bool {
    piece.owner matches Some((key, i)) && key == "hooks"@ && 0 <= i < hooks.len() && is_ours(
        hooks[i],
    )
}

/// The texts of the pieces that are not part of hooks of ours, in their order.
pub open spec fn other_texts(
    tables: Seq<Piece>,
    hooks: Seq<Map<Seq<char>, TomlItem>>,
) -> Seq<Seq<char>>
    decreases tables.len(),
{
    if tables.len() == 0 {
        Seq::empty()
    } else {
        let front = other_texts(tables.drop_last(), hooks);
        if is_our_piece(tables.last(), hooks) {
            front
        } else {
            front.push(tables.last().text)
        }
    }
}

/// The piece is part of a hook that is not ours.
pub open spec fn is_other_hook_piece(piece: Piece, hooks: Seq<Map<Seq<char>, TomlItem>>) -> bool {
    is_part(piece, "hooks"@) && !is_our_piece(piece, hooks)
}

/// How many tables are written up to the last one of a hook that is not ours; none where
/// there is no such hook.
pub open spec fn up_to_other_hooks(
    tables: Seq<Piece>,
    hooks: Seq<Map<Seq<char>, TomlItem>>,
) -> int
    decreases tables.len(),
{
    if tables.len() == 0 {
        0
    } else if is_other_hook_piece(tables.last(), hooks) {
        tables.len() as int
    } else {
        up_to_other_hooks(tables.drop_last(), hooks)
    }
}

/// Where a hook of ours is written, as the number of tables before it: right behind the
/// other hooks, and in the gap where there are none.
pub open spec fn hook_place(read: TomlText, hooks: Seq<Map<Seq<char>, TomlItem>>) -> int {
    if up_to_other_hooks(read.layout.tables, hooks) > 0 {
        up_to_other_hooks(read.layout.tables, hooks)
    } else {
        (read.gap)("hooks"@)
    }
}

/// The text of a configuration without our hooks, and with `added` in their place.
pub open spec fn rewritten(
    read: TomlText,
    hooks: Seq<Map<Seq<char>, TomlItem>>,
    added: Seq<char>,
) -> Seq<char> {
    let at = hook_place(read, hooks);
    let before = other_texts(read.layout.tables.take(at), hooks);
    let behind = other_texts(read.layout.tables.skip(at), hooks);
    read.layout.head + joined(before) + added + joined(behind) + read.layout.tail
}

/// What becomes of a piece when our hooks from the `n`th on are taken out.
spec fn swept_piece(piece: Piece, hooks: Seq<Map<Seq<char>, TomlItem>>, n: int) -> Option<Piece> {
    match piece.owner {
        Some((key, i)) if key == "hooks"@ && i >= n => if is_ours(hooks[i]) {
            None
        } else {
            let place = n + others(hooks.subrange(n, i)).len();
            Some(Piece { owner: Some((key, place)), ..piece })
        },
        _ => Some(piece),
    }
}

spec fn swept(tables: Seq<Piece>, hooks: Seq<Map<Seq<char>, TomlItem>>, n: int) -> Seq<Piece>
    decreases tables.len(),
{
    if tables.len() == 0 {
        Seq::empty()
    } else {
        let front = swept(tables.drop_last(), hooks, n);
        match swept_piece(tables.last(), hooks, n) {
            Some(piece) => front.push(piece),
            None => front,
        }
    }
}

/// The hooks that own pieces are there.
spec fn owned_by_hooks(tables: Seq<Piece>, hooks: Seq<Map<Seq<char>, TomlItem>>) -> bool {
    forall|k: int|
        0 <= k < tables.len() ==> ((#[trigger] tables[k]).owner matches Some((key, i)) ==> key
            == "hooks"@ ==> 0 <= i < hooks.len())
}

proof fn lemma_owned_front(tables: Seq<Piece>, hooks: Seq<Map<Seq<char>, TomlItem>>)
    requires
        owned_by_hooks(tables, hooks),
        tables.len() > 0,
    ensures
        owned_by_hooks(tables.drop_last(), hooks),
        tables.last().owner matches Some((key, i)) ==> key == "hooks"@ ==> 0 <= i < hooks.len(),
{
    let front = tables.drop_last();
    assert(tables[tables.len() - 1] == tables.last());
    assert forall|k: int| 0 <= k < front.len() implies ((#[trigger] front[k]).owner matches Some(
        (key, i),
    ) ==> key == "hooks"@ ==> 0 <= i < hooks.len()) by {
        assert(tables[k] == front[k]);
    }
}

proof fn lemma_nothing_swept(tables: Seq<Piece>, hooks: Seq<Map<Seq<char>, TomlItem>>)
    requires
        owned_by_hooks(tables, hooks),
    ensures
        swept(tables, hooks, hooks.len() as int) == tables,
    decreases tables.len(),
{
    if tables.len() > 0 {
        lemma_owned_front(tables, hooks);
        lemma_nothing_swept(tables.drop_last(), hooks);
        assert(tables.drop_last().push(tables.last()) =~= tables);
    } else {
        assert(swept(tables, hooks, hooks.len() as int) =~= tables);
    }
}

/// One more hook swept: ours goes, and any other stays.
proof fn lemma_one_more_swept(
    tables: Seq<Piece>,
    hooks: Seq<Map<Seq<char>, TomlItem>>,
    n: int,
)
    requires
        owned_by_hooks(tables, hooks),
        0 <= n < hooks.len(),
    ensures
        is_ours(hooks[n]) ==> pieces_without(swept(tables, hooks, n + 1), "hooks"@, n) == swept(
            tables,
            hooks,
            n,
        ),
        !is_ours(hooks[n]) ==> swept(tables, hooks, n + 1) == swept(tables, hooks, n),
    decreases tables.len(),
{
    if tables.len() > 0 {
        let front = tables.drop_last();
        let piece = tables.last();
        lemma_owned_front(tables, hooks);
        lemma_one_more_swept(front, hooks, n);
        match piece.owner {
            Some((key, i)) if key == "hooks"@ && i >= n => {
                if i > n {
                    let longer = hooks.subrange(n, i);
                    assert(longer.drop_first() =~= hooks.subrange(n + 1, i));
                    assert(longer[0] == hooks[n]);
                } else {
                    assert(others(hooks.subrange(n, n)).len() == 0);
                }
            },
            _ => {},
        }
        match swept_piece(piece, hooks, n + 1) {
            Some(moved) => {
                let before = swept(front, hooks, n + 1);
                assert(before.push(moved).drop_last() =~= before);
            },
            None => {},
        }
    }
}

proof fn lemma_swept_texts(tables: Seq<Piece>, hooks: Seq<Map<Seq<char>, TomlItem>>)
    requires
        owned_by_hooks(tables, hooks),
    ensures
        piece_texts(swept(tables, hooks, 0)) == other_texts(tables, hooks),
    decreases tables.len(),
{
    if tables.len() > 0 {
        lemma_owned_front(tables, hooks);
        lemma_swept_texts(tables.drop_last(), hooks);
        let front = swept(tables.drop_last(), hooks, 0);
        match swept_piece(tables.last(), hooks, 0) {
            Some(piece) => {
                assert(piece_texts(front.push(piece)) =~= piece_texts(front).push(piece.text));
            },
            None => {},
        }
    } else {
        assert(piece_texts(swept(tables, hooks, 0)) =~= other_texts(tables, hooks));
    }
}

proof fn lemma_owned_parts(tables: Seq<Piece>, hooks: Seq<Map<Seq<char>, TomlItem>>, at: int)
    requires
        owned_by_hooks(tables, hooks),
        0 <= at <= tables.len(),
    ensures
        owned_by_hooks(tables.take(at), hooks),
        owned_by_hooks(tables.skip(at), hooks),
{
    let front = tables.take(at);
    let rest = tables.skip(at);
    assert forall|k: int| 0 <= k < front.len() implies ((#[trigger] front[k]).owner matches Some(
        (key, i),
    ) ==> key == "hooks"@ ==> 0 <= i < hooks.len()) by {
        assert(front[k] == tables[k]);
    }
    assert forall|k: int| 0 <= k < rest.len() implies ((#[trigger] rest[k]).owner matches Some(
        (key, i),
    ) ==> key == "hooks"@ ==> 0 <= i < hooks.len()) by {
        assert(rest[k] == tables[k + at]);
    }
}

/// Both parts of the tables are swept alone.
proof fn lemma_swept_split(
    tables: Seq<Piece>,
    hooks: Seq<Map<Seq<char>, TomlItem>>,
    n: int,
    at: int,
)
    requires
        0 <= at <= tables.len(),
    ensures
        swept(tables, hooks, n) == swept(tables.take(at), hooks, n) + swept(
            tables.skip(at),
            hooks,
            n,
        ),
        swept(tables, hooks, n).take(swept(tables.take(at), hooks, n).len() as int) == swept(
            tables.take(at),
            hooks,
            n,
        ),
        swept(tables, hooks, n).skip(swept(tables.take(at), hooks, n).len() as int) == swept(
            tables.skip(at),
            hooks,
            n,
        ),
    decreases tables.len(),
{
    let front = swept(tables.take(at), hooks, n);
    let rest = swept(tables.skip(at), hooks, n);
    if at == tables.len() {
        assert(tables.take(at) =~= tables);
        assert(rest =~= Seq::empty());
        assert(front + rest =~= front);
    } else {
        let shorter = tables.drop_last();
        lemma_swept_split(shorter, hooks, n, at);
        assert(shorter.take(at) =~= tables.take(at));
        assert(tables.skip(at).drop_last() =~= shorter.skip(at));
        assert(tables.skip(at).last() == tables.last());
        assert(swept(tables, hooks, n) =~= front + rest);
    }
    assert((front + rest).take(front.len() as int) =~= front);
    assert((front + rest).skip(front.len() as int) =~= rest);
}

proof fn lemma_up_to_other_hooks(tables: Seq<Piece>, hooks: Seq<Map<Seq<char>, TomlItem>>)
    ensures
        ({
            let at = up_to_other_hooks(tables, hooks);
            &&& 0 <= at <= tables.len()
            &&& at > 0 ==> is_other_hook_piece(tables[at - 1], hooks)
            &&& forall|n: int|
                at <= n < tables.len() ==> !is_other_hook_piece(#[trigger] tables[n], hooks)
        }),
    decreases tables.len(),
{
    if tables.len() > 0 && !is_other_hook_piece(tables.last(), hooks) {
        let shorter = tables.drop_last();
        lemma_up_to_other_hooks(shorter, hooks);
        let at = up_to_other_hooks(shorter, hooks);
        assert forall|n: int| at <= n < tables.len() implies !is_other_hook_piece(
            #[trigger] tables[n],
            hooks,
        ) by {
            if n < shorter.len() {
                assert(shorter[n] == tables[n]);
            }
        }
    }
}

/// Where there are no pieces of other hooks, no piece of a hook is left.
proof fn lemma_no_hook_left(tables: Seq<Piece>, hooks: Seq<Map<Seq<char>, TomlItem>>)
    requires
        owned_by_hooks(tables, hooks),
        forall|n: int|
            0 <= n < tables.len() ==> !is_other_hook_piece(#[trigger] tables[n], hooks),
    ensures
        forall|n: int|
            0 <= n < swept(tables, hooks, 0).len() ==> !is_part(
                #[trigger] swept(tables, hooks, 0)[n],
                "hooks"@,
            ),
    decreases tables.len(),
{
    if tables.len() > 0 {
        let shorter = tables.drop_last();
        lemma_owned_front(tables, hooks);
        assert forall|n: int| 0 <= n < shorter.len() implies !is_other_hook_piece(
            #[trigger] shorter[n],
            hooks,
        ) by {
            assert(shorter[n] == tables[n]);
        }
        lemma_no_hook_left(shorter, hooks);
        assert(!is_other_hook_piece(tables[tables.len() - 1], hooks));
        let front = swept(shorter, hooks, 0);
        let all = swept(tables, hooks, 0);
        assert forall|n: int| 0 <= n < all.len() implies !is_part(#[trigger] all[n], "hooks"@) by {
            if n < front.len() {
                assert(all[n] == front[n]);
            }
        }
    }
}

proof fn lemma_joined(a: Seq<Seq<char>>, b: Seq<Seq<char>>)
    ensures
        joined(a + b) == joined(a) + joined(b),
    decreases b.len(),
{
    if b.len() == 0 {
        assert(a + b =~= a);
        assert(joined(a) + joined(b) =~= joined(a));
    } else {
        assert((a + b).drop_last() =~= a + b.drop_last());
        lemma_joined(a, b.drop_last());
        assert(joined(a + b) =~= joined(a) + joined(b));
    }
}

/// What is left of the tables, with more text between two of them, reads as the rewritten
/// configuration.
proof fn lemma_rewritten(
    read: TomlText,
    hooks: Seq<Map<Seq<char>, TomlItem>>,
    layout: Layout,
    piece: Piece,
)
    requires
        owned_by_hooks(read.layout.tables, hooks),
        0 <= hook_place(read, hooks) <= read.layout.tables.len(),
        layout == (Layout { tables: swept(read.layout.tables, hooks, 0), ..read.layout }),
    ensures
        written(layout) == rewritten(read, hooks, Seq::empty()),
        written(
            layout_with(
                layout,
                swept(read.layout.tables.take(hook_place(read, hooks)), hooks, 0).len() as int,
                piece,
            ),
        ) == rewritten(read, hooks, piece.text),
{
    let tables = read.layout.tables;
    let place = hook_place(read, hooks);
    let front = swept(tables.take(place), hooks, 0);
    let rest = swept(tables.skip(place), hooks, 0);
    let at = front.len() as int;
    lemma_swept_split(tables, hooks, 0, place);
    lemma_owned_parts(tables, hooks, place);
    lemma_swept_texts(tables.take(place), hooks);
    lemma_swept_texts(tables.skip(place), hooks);
    assert(piece_texts(layout.tables) =~= piece_texts(front) + piece_texts(rest));
    lemma_joined(piece_texts(front), piece_texts(rest));
    assert(written(layout) =~= rewritten(read, hooks, Seq::empty()));
    let more = layout_with(layout, at, piece);
    let one = seq![piece.text];
    assert(piece_texts(more.tables) =~= piece_texts(front) + one + piece_texts(rest));
    lemma_joined(piece_texts(front) + one, piece_texts(rest));
    lemma_joined(piece_texts(front), one);
    assert(one.drop_last() =~= Seq::empty());
    assert(joined(one.drop_last()) =~= Seq::empty());
    assert(joined(one) =~= piece.text);
    assert(written(more) =~= rewritten(read, hooks, piece.text));
}

fn later_place(a: Option<usize>, b: Option<usize>) -> (r: Option<usize>)
    ensures
        r == (match (a, b) {
            (Some(p), Some(q)) => Some(
                if p < q {
                    q
                } else {
                    p
                },
            ),
            (Some(p), None) => Some(p),
            (None, b) => b,
        }),
{
    match (a, b) {
        (Some(p), Some(q)) => Some(
            if p < q {
                q
            } else {
                p
            },
        ),
        (Some(p), None) => Some(p),
        (None, b) => b,
    }
}

/// The last place at which one of the tables or one within them stands.
fn last_place(tables: &Vec<&toml_edit::Table>) -> (r: Option<usize>)
    ensures
        match r {
            Some(p) => stands(places_of(tables@), p) && forall|q: usize| #[trigger]
                stands(places_of(tables@), q) ==> q <= p,
            None => forall|q: usize| !#[trigger] stands(places_of(tables@), q),
        },
    decreases places_of(tables@),
{
    let ghost list = places_of(tables@);
    let mut last: Option<usize> = None;
    let mut i: usize = 0;
    while i < tables.len()
        invariant
            i <= tables.len(),
            list == places_of(tables@),
            match last {
                Some(p) => stands(list.take(i as int), p) && forall|q: usize| #[trigger]
                    stands(list.take(i as int), q) ==> q <= p,
                None => forall|q: usize| !#[trigger] stands(list.take(i as int), q),
            },
        decreases tables.len() - i,
    {
        let table: &toml_edit::Table = tables[i];
        let within = tables_in(table);
        proof {
            assert(list[i as int] == table_places(*table));
            assert(decreases_to!(list => list[i as int]));
            assert(decreases_to!(list[i as int] => list[i as int].within));
            assert(list.take(i + 1).drop_last() =~= list.take(i as int));
            assert(list.take(i + 1).last() == list[i as int]);
        }
        let ghost before = last;
        let own = place_of(table);
        let inner = last_place(&within);
        last = later_place(later_place(last, own), inner);
        proof {
            assert forall|q: usize| #[trigger] stands(list.take(i + 1), q) implies last matches Some(
                p,
            ) && q <= p by {
                if stands(list.take(i as int), q) {
                    assert(before is Some);
                }
                if stands(list[i as int].within, q) {
                    assert(inner is Some);
                }
            }
            if last is Some {
                assert(stands(list.take(i + 1), last->0));
            }
        }
        i = i + 1;
    }
    proof {
        assert(list.take(tables.len() as int) =~= list);
    }
    last
}

proof fn lemma_stands(list: Seq<Places>, i: int)
    requires
        0 <= i < list.len(),
        list[i].own is Some,
    ensures
        stands(list, list[i].own->0),
    decreases list.len(),
{
    if i < list.len() - 1 {
        assert(list.drop_last()[i] == list[i]);
        lemma_stands(list.drop_last(), i);
    }
}

/// The last place of the other hooks is where a hook of ours belongs.
proof fn lemma_hook_place(
    read: TomlText,
    hooks: Seq<Map<Seq<char>, TomlItem>>,
    layout: Layout,
    gap: int,
    list: Seq<Places>,
    place: Option<usize>,
)
    requires
        owned_by_hooks(read.layout.tables, hooks),
        0 <= (read.gap)("hooks"@) <= read.layout.tables.len(),
        layout.tables == swept(read.layout.tables, hooks, 0),
        gap == swept(read.layout.tables.take((read.gap)("hooks"@)), hooks, 0).len(),
        is_placed(layout, "hooks"@, list),
        match place {
            Some(p) => stands(list, p) && forall|q: usize| #[trigger] stands(list, q) ==> q <= p,
            None => forall|q: usize| !#[trigger] stands(list, q),
        },
    ensures
        0 <= hook_place(read, hooks) <= read.layout.tables.len(),
        ({
            let at = swept(
                read.layout.tables.take(hook_place(read, hooks)),
                hooks,
                0,
            ).len() as int;
            &&& is_written_at(layout, "hooks"@, list.len(), gap, place, at)
            &&& is_behind(layout, "hooks"@, at)
        }),
{
    let tables = read.layout.tables;
    let last = up_to_other_hooks(tables, hooks);
    lemma_up_to_other_hooks(tables, hooks);
    lemma_owned_parts(tables, hooks, last);
    lemma_swept_split(tables, hooks, 0, last);
    let front = swept(tables.take(last), hooks, 0);
    let rest = swept(tables.skip(last), hooks, 0);
    assert forall|n: int| 0 <= n < tables.skip(last).len() implies !is_other_hook_piece(
        #[trigger] tables.skip(last)[n],
        hooks,
    ) by {
        assert(tables.skip(last)[n] == tables[n + last]);
    }
    lemma_no_hook_left(tables.skip(last), hooks);
    let at = front.len() as int;
    assert forall|n: int| at <= n < layout.tables.len() implies !is_part(
        #[trigger] layout.tables[n],
        "hooks"@,
    ) by {
        assert(layout.tables[n] == rest[n - at]);
    }
    if last > 0 {
        assert(tables.take(last).last() == tables[last - 1]);
        assert(tables[last - 1].owner matches Some((key, i)) && key == "hooks"@ && 0 <= i
            < hooks.len());
        assert(is_part(front.last(), "hooks"@));
        assert(layout.tables[at - 1] == front[at - 1]);
        assert(is_part(layout.tables[at - 1], "hooks"@));
        assert(stands(list, layout.tables[at - 1].place));
        let p = place->0;
        let n = choose|n: int|
            0 <= n < layout.tables.len() && is_part(#[trigger] layout.tables[n], "hooks"@)
                && layout.tables[n].place == p;
        assert(n < at);
        if n < at - 1 {
            assert(layout.tables[n].place < layout.tables[at - 1].place);
        }
    } else {
        assert(front =~= Seq::empty());
        if place is Some {
            let n = choose|n: int|
                0 <= n < layout.tables.len() && is_part(#[trigger] layout.tables[n], "hooks"@)
                    && layout.tables[n].place == place->0;
            assert(false);
        }
        if list.len() > 0 {
            lemma_stands(list, 0);
        }
    }
}

/// Takes our hooks out of a document that has a list of hooks.
fn remove_stale(document: &mut toml_edit::DocumentMut) -> (empty: bool)
    requires
        untouched(*old(document)),
        tables_at(document_items(*old(document)), "hooks"@) is Some,
        is_owned(document_items(*old(document)), document_layout(*old(document))),
        0 <= document_gap(*old(document), "hooks"@) <= document_layout(*old(document)).tables.len(),
    ensures
        untouched(*final(document)),
        document_items(*final(document)) == document_items(*old(document)).insert(
            "hooks"@,
            TomlItem::Tables(others(tables_at(document_items(*old(document)), "hooks"@)->0)),
        ),
        document_layout(*final(document)).head == document_layout(*old(document)).head,
        document_layout(*final(document)).tail == document_layout(*old(document)).tail,
        document_layout(*final(document)).tables == swept(
            document_layout(*old(document)).tables,
            tables_at(document_items(*old(document)), "hooks"@)->0,
            0,
        ),
        document_gap(*final(document), "hooks"@) == swept(
            document_layout(*old(document)).tables.take(document_gap(*old(document), "hooks"@)),
            tables_at(document_items(*old(document)), "hooks"@)->0,
            0,
        ).len(),
        empty == (others(tables_at(document_items(*old(document)), "hooks"@)->0).len() == 0),
{
    let ghost items = document_items(*document);
    let ghost layout = document_layout(*document);
    let ghost hooks = tables_at(items, "hooks"@)->0;
    let ghost gap = document_gap(*document, "hooks"@);
    let commands: Vec<Option<String>> = match table_texts(document, "hooks", "command") {
        Some(commands) => commands,
        None => Vec::new(),
    };
    let ghost texts = optional_texts(commands@);
    let mut i: usize = commands.len();
    let mut left: usize = 0;
    proof {
        assert(texts.len() == hooks.len());
        assert(hooks.take(hooks.len() as int) + others(hooks.skip(hooks.len() as int)) =~= hooks);
        assert(items.insert("hooks"@, TomlItem::Tables(hooks)) =~= items);
        assert(owned_by_hooks(layout.tables, hooks));
        lemma_nothing_swept(layout.tables, hooks);
        lemma_owned_parts(layout.tables, hooks, gap);
        lemma_nothing_swept(layout.tables.take(gap), hooks);
    }
    while i > 0
        invariant
            i <= commands.len(),
            commands.len() == hooks.len(),
            left == others(hooks.skip(i as int)).len(),
            left + i <= hooks.len(),
            texts == optional_texts(commands@),
            texts == texts_at(hooks, "command"@),
            untouched(*document),
            document_items(*document) == items.insert(
                "hooks"@,
                TomlItem::Tables(hooks.take(i as int) + others(hooks.skip(i as int))),
            ),
            owned_by_hooks(layout.tables, hooks),
            document_layout(*document).head == layout.head,
            document_layout(*document).tail == layout.tail,
            document_layout(*document).tables == swept(layout.tables, hooks, i as int),
            0 <= gap <= layout.tables.len(),
            document_gap(*document, "hooks"@) == swept(
                layout.tables.take(gap),
                hooks,
                i as int,
            ).len(),
        decreases i,
    {
        i = i - 1;
        let ghost n = i as int;
        let ghost now = hooks.take(n + 1) + others(hooks.skip(n + 1));
        proof {
            assert(texts[n] == text_at(hooks[n], "command"@));
            assert(hooks.skip(n).drop_first() =~= hooks.skip(n + 1));
            assert(tables_at(document_items(*document), "hooks"@) == Some(now));
            lemma_one_more_swept(layout.tables, hooks, n);
            lemma_owned_parts(layout.tables, hooks, gap);
            lemma_one_more_swept(layout.tables.take(gap), hooks, n);
            lemma_swept_split(layout.tables, hooks, n + 1, gap);
        }
        if is_our_command(&commands[i]) {
            remove_table(document, "hooks", i);
            proof {
                assert(now.remove(n) =~= hooks.take(n) + others(hooks.skip(n)));
                assert(document_items(*document) =~= items.insert(
                    "hooks"@,
                    TomlItem::Tables(hooks.take(n) + others(hooks.skip(n))),
                ));
            }
        } else {
            left = left + 1;
            proof {
                assert(now =~= hooks.take(n) + others(hooks.skip(n)));
            }
        }
    }
    proof {
        assert(hooks.skip(0) =~= hooks);
        assert(hooks.take(0) + others(hooks.skip(0)) =~= others(hooks));
    }
    left == 0
}

/// The file of a configuration as it was found.
pub enum ConfigFile {
    /// There is none.
    Absent,
    /// It is there, but is no text, or cannot be read at all.
    Unreadable,
    Text(String),
}

impl ConfigFile {
    /// The text in the file, which is empty where there is no file.
    pub open spec fn content(self) -> Option<Seq<char>> {
        match self {
            ConfigFile::Absent => Some(Seq::empty()),
            ConfigFile::Unreadable => None,
            ConfigFile::Text(text) => Some(text@),
        }
    }
}

/// The command to switch to: none to switch off.
pub open spec fn wanted_command(enabled: bool, exe: Option<&str>, windows: bool) -> Option<
    Seq<char>,
> {
    if enabled {
        Some(start_command(exe->0@, windows))
    } else {
        None
    }
}

/// The text `after` is the configuration `before` with the switch thrown: it reads as the
/// configuration without our hooks and with one for `command`, if there is to be one; and
/// all that is not ours is written as before, in its order, and ours right behind the
/// other hooks.
pub open spec fn is_switched(
    before: Seq<char>,
    after: Seq<char>,
    command: Option<Seq<char>>,
) -> bool {
    configuration(before) matches Some(read) && hooks_of(read.items) matches Some(hooks) && {
        &&& writable(read.items)
        &&& toml_parsed(after) == Some(switched(read.items, hooks, command))
        &&& configured(after) == Some(switched(read.items, hooks, command))
        &&& command is None ==> after == rewritten(read, hooks, Seq::empty())
        &&& command is Some ==> exists|added: Seq<char>|
            after == #[trigger] rewritten(read, hooks, added)
    }
}

/// Switches starting along on or off: gives the text of the configuration after it, given
/// the file before and where the companion lies, if it knows.
pub fn set_launch_hook(file: &ConfigFile, enabled: bool, exe: Option<&str>, windows: bool) -> (r:
    Result<String, HookError>)
    requires
        enabled && exe is Some ==> quotes_fit(start_command(exe->0@, windows)),
    ensures
        match file.content() {
            None => r matches Err(HookError::Unreadable),
            Some(text) => match configuration(text) {
                None => r matches Err(HookError::Syntax { words }) && words@ == toml_read(
                    text,
                )->Err_0,
                Some(read) => if hooks_of(read.items) is None {
                    r matches Err(HookError::NotTables)
                } else if enabled && exe is None {
                    r matches Err(HookError::NoExe)
                } else {
                    r is Ok && is_switched(text, r->Ok_0@, wanted_command(enabled, exe, windows))
                },
            },
        },
{
    let text: &str = match file {
        ConfigFile::Absent => "",
        ConfigFile::Unreadable => {
            return Err(HookError::Unreadable);
        },
        ConfigFile::Text(text) => text.as_str(),
    };
    proof {
        reveal_strlit("");
        assert(file.content() is Some && text@ =~= file.content()->0);
    }
    let mut document: toml_edit::DocumentMut = if trim(text).is_empty() {
        new_document()
    } else {
        match parse_document(text) {
            Ok(document) => document,
            Err(words) => {
                return Err(HookError::Syntax { words });
            },
        }
    };
    let ghost items = document_items(document);
    let ghost layout = document_layout(document);
    let ghost read = configuration(text@)->0;
    proof {
        assert(read.items == items && read.layout == layout);
        assert(document_gap(document, "hooks"@) == (read.gap)("hooks"@));
        assert(0 <= document_gap(document, "hooks"@) <= layout.tables.len());
    }
    if !contains_key(&document, "hooks") {
        put_empty_tables(&mut document, "hooks");
    }
    if table_texts(&document, "hooks", "command").is_none() {
        return Err(HookError::NotTables);
    }
    let ghost hooks = hooks_of(items)->0;
    proof {
        assert(tables_at(document_items(document), "hooks"@) == Some(hooks));
        assert(document_items(document) =~= items.insert("hooks"@, TomlItem::Tables(hooks)));
        assert(is_owned(document_items(document), layout)) by {
            assert forall|n: int| 0 <= n < layout.tables.len() implies ((
            #[trigger] layout.tables[n]).owner matches Some((key, i)) ==> tables_at(
                document_items(document),
                key,
            ) is Some && 0 <= i < tables_at(document_items(document), key)->0.len()) by {
                match layout.tables[n].owner {
                    Some((key, i)) => {
                        assert(tables_at(items, key) is Some);
                        if key != "hooks"@ {
                            assert(tables_at(document_items(document), key) == tables_at(
                                items,
                                key,
                            ));
                        }
                    },
                    None => {},
                }
            }
        }
    }
    let empty = remove_stale(&mut document);
    let ghost left = document_layout(document);
    let ghost mut added: Seq<char> = Seq::empty();
    proof {
        assert(owned_by_hooks(layout.tables, hooks));
        lemma_up_to_other_hooks(layout.tables, hooks);
        assert(left =~= Layout { tables: swept(layout.tables, hooks, 0), ..layout });
    }
    if enabled {
        match exe {
            Some(exe) => {
                let command = launch_command(exe, windows);
                let list = match list_tables(&document, "hooks") {
                    Some(list) => list,
                    None => Vec::new(),
                };
                let place = last_place(&list);
                let ghost places = places_of(list@);
                let ghost at = swept(
                    layout.tables.take(hook_place(read, hooks)),
                    hooks,
                    0,
                ).len() as int;
                proof {
                    lemma_hook_place(
                        read,
                        hooks,
                        left,
                        document_gap(document, "hooks"@),
                        places,
                        place,
                    );
                    reveal_strlit("event");
                    reveal_strlit("command");
                    reveal_strlit("SessionStart");
                    assert("event"@.len() != "command"@.len());
                    lemma_short_text_fits(HOOK_EVENT@);
                }
                push_table(
                    &mut document,
                    "hooks",
                    ("event", HOOK_EVENT),
                    ("command", command.as_str()),
                    place,
                );
                proof {
                    let piece = choose|piece: Piece|
                        document_layout(document) == #[trigger] layout_with(left, at, piece);
                    added = piece.text;
                    lemma_rewritten(read, hooks, left, piece);
                }
            },
            None => {
                return Err(HookError::NoExe);
            },
        }
    } else {
        if empty {
            proof {
                assert(others(hooks) =~= no_tables());
            }
            remove_key(&mut document, "hooks");
        }
        proof {
            let piece = Piece { owner: None, place: 0, text: Seq::empty() };
            lemma_rewritten(read, hooks, left, piece);
        }
    }
    let ghost command = wanted_command(enabled, exe, windows);
    proof {
        let after = document_items(document);
        assert(after =~= switched(items, hooks, command));
        assert forall|key: Seq<char>| #[trigger] tables_at(after, key) is Some implies tables_at(
            after,
            key,
        )->0.len() > 0 by {
            if key != "hooks"@ {
                assert(tables_at(items, key) is Some);
            }
        }
    }
    let r = document_text(&document);
    proof {
        assert(configured(r@) == Some(switched(items, hooks, command)));
        assert(r@ == rewritten(read, hooks, added));
        assert(is_switched(text@, r@, command));
    }
    Ok(r)
}

proof fn lemma_others_push(
    hooks: Seq<Map<Seq<char>, TomlItem>>,
    hook: Map<Seq<char>, TomlItem>,
)
    ensures
        others(hooks.push(hook)) == (if is_ours(hook) {
            others(hooks)
        } else {
            others(hooks).push(hook)
        }),
    decreases hooks.len(),
{
    let more = hooks.push(hook);
    if hooks.len() == 0 {
        assert(more.drop_first() =~= Seq::empty());
        assert(others(more.drop_first()) =~= Seq::empty());
        assert(others(more) =~= (if is_ours(hook) {
            others(hooks)
        } else {
            others(hooks).push(hook)
        }));
    } else {
        assert(more.drop_first() =~= hooks.drop_first().push(hook));
        lemma_others_push(hooks.drop_first(), hook);
        assert(others(more) =~= (if is_ours(hook) {
            others(hooks)
        } else {
            others(hooks).push(hook)
        }));
    }
}

/// The hooks that are not ours hold none of ours, and are left alone when ours are taken
/// out again.
proof fn lemma_others(hooks: Seq<Map<Seq<char>, TomlItem>>)
    ensures
        !any_ours(others(hooks)),
        others(others(hooks)) == others(hooks),
    decreases hooks.len(),
{
    if hooks.len() > 0 {
        let rest = others(hooks.drop_first());
        lemma_others(hooks.drop_first());
        if !is_ours(hooks[0]) {
            let all = others(hooks);
            assert(all.drop_first() =~= rest);
            assert forall|i: int| 0 <= i < all.len() implies !is_ours(#[trigger] all[i]) by {
                if i > 0 {
                    assert(all[i] == rest[i - 1]);
                }
            }
            assert(others(all) =~= all);
        }
    }
}

proof fn lemma_command_names_exe(exe: Seq<char>, before: Seq<char>, after: Seq<char>)
    requires
        occurs_in(HOOK_MARKER@, exe),
    ensures
        occurs_in(HOOK_MARKER@, before + exe + after),
{
    let n = HOOK_MARKER@.len() as int;
    let i = choose|i: int|
        0 <= i <= exe.len() - HOOK_MARKER@.len() && #[trigger] exe.subrange(
            i,
            i + HOOK_MARKER@.len(),
        ) == HOOK_MARKER@;
    let whole = before + exe + after;
    let k = before.len() + i;
    assert(whole.subrange(k, k + n) =~= exe.subrange(i, i + n));
}

/// A hook that starts a companion whose path names it is a hook of ours.
pub proof fn law_our_command_is_known(exe: Seq<char>, windows: bool)
    requires
        occurs_in(HOOK_MARKER@, exe),
    ensures
        is_ours(session_hook(start_command(exe, windows))),
{
    if windows {
        lemma_command_names_exe(exe, "start \"\" \""@, "\""@);
    } else {
        lemma_command_names_exe(exe, "nohup \""@, "\" >/dev/null 2>&1 &"@);
    }
}

/// Switched on, the companion is found to start along; switched off, it is found not to.
/// Its path has to name it, for the hook is known by that name.
pub proof fn law_switch_is_found(
    items: Map<Seq<char>, TomlItem>,
    hooks: Seq<Map<Seq<char>, TomlItem>>,
    exe: Seq<char>,
    windows: bool,
)
    requires
        occurs_in(HOOK_MARKER@, exe),
    ensures
        has_our_hook(switched(items, hooks, Some(start_command(exe, windows)))),
        !has_our_hook(switched(items, hooks, None)),
{
    let hook = session_hook(start_command(exe, windows));
    law_our_command_is_known(exe, windows);
    let on = others(hooks).push(hook);
    assert(on[on.len() - 1] == hook);
    assert(any_ours(on));
    assert(tables_at(switched(items, hooks, Some(start_command(exe, windows))), "hooks"@) == Some(
        on,
    ));
    lemma_others(hooks);
    let off = switched(items, hooks, None);
    if tables_at(off, "hooks"@) is Some {
        assert(tables_at(off, "hooks"@) == Some(others(hooks)));
    }
}

/// The switch touches nothing but hooks of ours: every other key holds what it held, and
/// the other hooks stay in their order, ours coming last.
pub proof fn law_rest_untouched(
    items: Map<Seq<char>, TomlItem>,
    hooks: Seq<Map<Seq<char>, TomlItem>>,
    command: Option<Seq<char>>,
    key: Seq<char>,
)
    ensures
        key != "hooks"@ ==> switched(items, hooks, command).dom().contains(key)
            == items.dom().contains(key),
        key != "hooks"@ && items.dom().contains(key) ==> switched(items, hooks, command)[key]
            == items[key],
        hooks_of(switched(items, hooks, command)) == Some(
            match command {
                Some(command) => others(hooks).push(session_hook(command)),
                None => others(hooks),
            },
        ),
{
}

/// Throwing the switch again to the same side changes nothing, so there is never more
/// than one hook of ours; and switching off undoes switching on.
pub proof fn law_switch_again(
    items: Map<Seq<char>, TomlItem>,
    hooks: Seq<Map<Seq<char>, TomlItem>>,
    exe: Seq<char>,
    windows: bool,
)
    requires
        occurs_in(HOOK_MARKER@, exe),
        hooks_of(items) == Some(hooks),
    ensures
        ({
            let command = Some(start_command(exe, windows));
            let on = switched(items, hooks, command);
            let off = switched(items, hooks, None);
            &&& switched(on, hooks_of(on)->0, command) == on
            &&& switched(off, hooks_of(off)->0, None) == off
            &&& switched(on, hooks_of(on)->0, None) == off
            &&& switched(off, hooks_of(off)->0, command) == on
            &&& !any_ours(hooks) && hooks.len() > 0 ==> off == items
            &&& !items.dom().contains("hooks"@) ==> off == items
        }),
{
    let command = start_command(exe, windows);
    let hook = session_hook(command);
    let on = switched(items, hooks, Some(command));
    let off = switched(items, hooks, None);
    law_our_command_is_known(exe, windows);
    lemma_others(hooks);
    lemma_others_push(others(hooks), hook);
    law_rest_untouched(items, hooks, Some(command), "hooks"@);
    law_rest_untouched(items, hooks, None, "hooks"@);
    assert(switched(on, hooks_of(on)->0, Some(command)) =~= on);
    assert(switched(off, hooks_of(off)->0, None) =~= off);
    assert(switched(on, hooks_of(on)->0, None) =~= off);
    assert(switched(off, hooks_of(off)->0, Some(command)) =~= on);
    if !any_ours(hooks) {
        lemma_none_ours(hooks);
        if hooks.len() > 0 {
            assert(off =~= items);
        }
    }
    if !items.dom().contains("hooks"@) {
        assert(off =~= items);
    }
}

/// After the switch was thrown, the configuration is found to start the companion exactly
/// if it was switched on. The companion's path has to name it.
pub proof fn law_switch_is_read_back(
    before: Seq<char>,
    on: Seq<char>,
    off: Seq<char>,
    exe: Seq<char>,
    windows: bool,
)
    requires
        occurs_in(HOOK_MARKER@, exe),
        is_switched(before, on, Some(start_command(exe, windows))),
        is_switched(before, off, None),
    ensures
        starts_along(on),
        !starts_along(off),
{
    let items = configured(before)->0;
    law_switch_is_found(items, hooks_of(items)->0, exe, windows);
}

/// Each text but the first is the one before it with the switch thrown for `command`.
pub open spec fn are_switched(texts: Seq<Seq<char>>, command: Seq<char>) -> bool {
    forall|i: int|
        0 < i < texts.len() ==> is_switched(texts[i - 1], #[trigger] texts[i], Some(command))
}

/// Of texts: switching on any number of times is switching on once; and switching off
/// then gives back the configuration as it was, if it had no hook of ours before.
pub proof fn law_off_undoes_on(
    texts: Seq<Seq<char>>,
    off: Seq<char>,
    exe: Seq<char>,
    windows: bool,
)
    requires
        occurs_in(HOOK_MARKER@, exe),
        texts.len() >= 2,
        are_switched(texts, start_command(exe, windows)),
        !starts_along(texts[0]),
        is_switched(texts.last(), off, None),
    ensures
        configured(texts.last()) == configured(texts[1]),
        configured(off) == configured(texts[0]),
{
    let command = start_command(exe, windows);
    assert(is_switched(texts[1 - 1], texts[1], Some(command)));
    let items = configured(texts[0])->0;
    let hooks = hooks_of(items)->0;
    lemma_on_again(texts, texts.len() - 1, exe, windows);
    law_switch_again(items, hooks, exe, windows);
    if tables_at(items, "hooks"@) is Some {
        assert(hooks.len() > 0);
    }
    assert(!has_our_hook(items));
}

proof fn lemma_on_again(texts: Seq<Seq<char>>, i: int, exe: Seq<char>, windows: bool)
    requires
        occurs_in(HOOK_MARKER@, exe),
        1 <= i < texts.len(),
        are_switched(texts, start_command(exe, windows)),
    ensures
        configured(texts[i]) == configured(texts[1]),
    decreases i,
{
    let command = start_command(exe, windows);
    assert(is_switched(texts[i - 1], texts[i], Some(command)));
    if i > 1 {
        lemma_on_again(texts, i - 1, exe, windows);
        assert(is_switched(texts[1 - 1], texts[1], Some(command)));
        let items = configured(texts[0])->0;
        law_switch_again(items, hooks_of(items)->0, exe, windows);
    }
}

proof fn lemma_none_ours(hooks: Seq<Map<Seq<char>, TomlItem>>)
    requires
        !any_ours(hooks),
    ensures
        others(hooks) == hooks,
    decreases hooks.len(),
{
    if hooks.len() > 0 {
        let rest = hooks.drop_first();
        assert(!is_ours(hooks[0]));
        assert forall|i: int| 0 <= i < rest.len() implies !is_ours(#[trigger] rest[i]) by {
            assert(rest[i] == hooks[i + 1]);
        }
        lemma_none_ours(rest);
        assert(others(hooks) =~= hooks);
    } else {
        assert(others(hooks) =~= hooks);
    }
}

/// The command runs the companion's own file: it is the path in quotation marks, behind
/// what starts a program in the background on Windows, and between what does elsewhere.
pub proof fn law_start_command(exe: Seq<char>)
    ensures
        start_command(exe, true) == "start \"\" \""@ + exe + "\""@,
        start_command(exe, false) == "nohup \""@ + exe + "\" >/dev/null 2>&1 &"@,
        occurs_in(exe, start_command(exe, true)),
        occurs_in(exe, start_command(exe, false)),
{
    law_occurrence("start \"\" \""@, exe, "\""@, exe);
    law_occurrence("nohup \""@, exe, "\" >/dev/null 2>&1 &"@, exe);
}

/// A hook is ours exactly if its command is text that names the companion; nothing else in
/// it counts.
pub proof fn law_our_hooks(
    hook: Map<Seq<char>, TomlItem>,
    other: Map<Seq<char>, TomlItem>,
    before: Seq<char>,
    behind: Seq<char>,
)
    ensures
        hook.dom().contains("command"@) && hook["command"@] == TomlItem::Text(
            before + "kimi-pet"@ + behind,
        ) ==> is_ours(hook),
        is_ours(hook) ==> hook.dom().contains("command"@) && (hook["command"@] matches
            TomlItem::Text(command) && exists|a: Seq<char>, b: Seq<char>|
            command == #[trigger] (a + "kimi-pet"@ + b)),
        hook.dom().contains("command"@) && other.dom().contains("command"@) && hook["command"@]
            == other["command"@] ==> is_ours(hook) == is_ours(other),
{
    law_occurrence(before, "kimi-pet"@, behind, Seq::empty());
    if is_ours(hook) {
        law_occurrence(Seq::empty(), "kimi-pet"@, Seq::empty(), text_at(hook, "command"@)->0);
    }
}

/// The hook that is written runs the command when a session starts, and says no more.
pub proof fn law_session_hook(command: Seq<char>, key: Seq<char>)
    ensures
        session_hook(command).dom().contains("event"@),
        session_hook(command)["event"@] == TomlItem::Text("SessionStart"@),
        session_hook(command).dom().contains("command"@),
        session_hook(command)["command"@] == TomlItem::Text(command),
        key != "event"@ && key != "command"@ ==> !session_hook(command).dom().contains(key),
{
    reveal_strlit("event");
    reveal_strlit("command");
    assert("event"@.len() != "command"@.len());
}

/// The hooks that are not ours stay, in their order, and ours go: taken from two parts of a
/// list they are those of the first and then those of the second; and a single hook stays
/// exactly if it is not ours.
pub proof fn law_other_hooks(
    first: Seq<Map<Seq<char>, TomlItem>>,
    second: Seq<Map<Seq<char>, TomlItem>>,
    hook: Map<Seq<char>, TomlItem>,
)
    ensures
        others(first + second) == others(first) + others(second),
        is_ours(hook) ==> others(seq![hook]).len() == 0,
        !is_ours(hook) ==> others(seq![hook]) == seq![hook],
    decreases first.len(),
{
    let one = seq![hook];
    assert(one.drop_first() =~= Seq::empty());
    assert(others(one.drop_first()) =~= Seq::empty());
    if !is_ours(hook) {
        assert(others(one) =~= seq![hook]);
    }
    if first.len() == 0 {
        assert(first + second =~= second);
        assert(others(first) =~= Seq::empty());
        assert(others(first) + others(second) =~= others(second));
    } else {
        law_other_hooks(first.drop_first(), second, hook);
        assert((first + second).drop_first() =~= first.drop_first() + second);
        assert((first + second)[0] == first[0]);
        assert(others(first + second) =~= others(first) + others(second));
    }
}

/// A configuration has hooks where it holds a list of tables under that name, and none
/// where it says nothing under it; anything else there is no list of hooks. It starts the
/// companion exactly if one of these hooks is ours.
pub proof fn law_hooks_of(
    items: Map<Seq<char>, TomlItem>,
    hooks: Seq<Map<Seq<char>, TomlItem>>,
)
    ensures
        items.dom().contains("hooks"@) && items["hooks"@] == TomlItem::Tables(hooks) ==> hooks_of(
            items,
        ) == Some(hooks) && (has_our_hook(items) <==> exists|i: int|
            0 <= i < hooks.len() && is_ours(#[trigger] hooks[i])),
        !items.dom().contains("hooks"@) ==> hooks_of(items) == Some(no_tables()) && !has_our_hook(
            items,
        ),
        items.dom().contains("hooks"@) && !(items["hooks"@] is Tables) ==> hooks_of(items) is None
            && !has_our_hook(items),
        no_tables().len() == 0,
{
}

/// After the switch the list under `hooks` is the other hooks, with one for the command
/// behind them if it was switched on; without any, there is nothing under that name.
/// Whatever else the configuration holds, it holds as before.
pub proof fn law_switched(
    items: Map<Seq<char>, TomlItem>,
    hooks: Seq<Map<Seq<char>, TomlItem>>,
    command: Seq<char>,
    key: Seq<char>,
)
    ensures
        ({
            let on = switched(items, hooks, Some(command));
            let off = switched(items, hooks, None);
            &&& on.dom().contains("hooks"@) && on["hooks"@] == TomlItem::Tables(
                others(hooks) + seq![session_hook(command)],
            )
            &&& others(hooks).len() > 0 ==> off.dom().contains("hooks"@) && off["hooks"@]
                == TomlItem::Tables(others(hooks))
            &&& others(hooks).len() == 0 ==> !off.dom().contains("hooks"@)
            &&& key != "hooks"@ ==> on.dom().contains(key) == items.dom().contains(key)
                && off.dom().contains(key) == items.dom().contains(key)
            &&& key != "hooks"@ && items.dom().contains(key) ==> on[key] == items[key] && off[key]
                == items[key]
        }),
{
    assert(others(hooks).push(session_hook(command)) =~= others(hooks) + seq![
        session_hook(command),
    ]);
}

/// A text of nothing but white space is a configuration that says nothing; any other is
/// what it reads as, or none if it is no TOML.
pub proof fn law_configurations(text: Seq<char>, read: TomlText)
    ensures
        (forall|k: int| 0 <= k < text.len() ==> is_white_space(#[trigger] text[k])) ==> configured(
            text,
        ) == Some(no_items()),
        (exists|k: int| 0 <= k < text.len() && !is_white_space(#[trigger] text[k])) ==> configured(
            text,
        ) == toml_parsed(text),
        toml_read(text) == Ok::<TomlText, Seq<char>>(read) ==> toml_parsed(text) == Some(
            read.items,
        ),
        toml_read(text) is Err ==> toml_parsed(text) is None,
        no_items().dom() == Set::<Seq<char>>::empty(),
{
    law_trimmed(text);
    let t = trimmed(text);
    let (i, j) = choose|i: int, j: int|
        0 <= i <= j <= text.len() && #[trigger] text.subrange(i, j) == t && (forall|k: int|
            0 <= k < i || j <= k < text.len() ==> is_white_space(#[trigger] text[k]));
    if t.len() > 0 {
        assert(t[0] == text[i]);
    }
    assert(no_items().dom() =~= Set::<Seq<char>>::empty());
}

/// A file that is absent is taken as empty, one that is text as that text, and one that
/// cannot be read as nothing at all.
pub proof fn law_config_files(file: ConfigFile, text: String)
    ensures
        file == ConfigFile::Absent ==> (file.content() matches Some(content) && content.len() == 0),
        file == ConfigFile::Text(text) ==> file.content() == Some(text@),
        file.content() is None <==> file == ConfigFile::Unreadable,
{
}

/// The command is wanted exactly when switching on, and is the one that starts the file.
pub proof fn law_wanted_command(exe: &str, windows: bool)
    ensures
        wanted_command(true, Some(exe), windows) == Some(start_command(exe@, windows)),
        wanted_command(false, Some(exe), windows) is None,
        wanted_command(false, None, windows) is None,
{
}

/// The other tables are written in their order, and ours are not: taken from two parts they
/// are those of the first and then those of the second; a single table is written exactly
/// if it is no part of a hook of ours. A table is so exactly if its owner under `hooks` is.
pub proof fn law_other_tables(
    first: Seq<Piece>,
    second: Seq<Piece>,
    piece: Piece,
    hooks: Seq<Map<Seq<char>, TomlItem>>,
    i: int,
)
    ensures
        other_texts(first + second, hooks) == other_texts(first, hooks) + other_texts(
            second,
            hooks,
        ),
        piece.owner == Some(("hooks"@, i)) && 0 <= i < hooks.len() && is_ours(hooks[i])
            ==> other_texts(seq![piece], hooks).len() == 0,
        piece.owner == Some(("hooks"@, i)) && 0 <= i < hooks.len() && !is_ours(hooks[i])
            ==> other_texts(seq![piece], hooks) == seq![piece.text],
        (piece.owner matches Some((key, _)) ==> key != "hooks"@) ==> other_texts(
            seq![piece],
            hooks,
        ) == seq![piece.text],
    decreases second.len(),
{
    let one = seq![piece];
    assert(one.drop_last() =~= Seq::empty());
    assert(other_texts(one.drop_last(), hooks) =~= Seq::empty());
    assert(one.last() == piece);
    if !is_our_piece(piece, hooks) {
        assert(other_texts(one, hooks) =~= seq![piece.text]);
    }
    if second.len() == 0 {
        assert(first + second =~= first);
        assert(other_texts(second, hooks) =~= Seq::empty());
        assert(other_texts(first, hooks) + other_texts(second, hooks) =~= other_texts(
            first,
            hooks,
        ));
    } else {
        law_other_tables(first, second.drop_last(), piece, hooks, i);
        assert((first + second).drop_last() =~= first + second.drop_last());
        assert((first + second).last() == second.last());
        assert(other_texts(first + second, hooks) =~= other_texts(first, hooks) + other_texts(
            second,
            hooks,
        ));
    }
}

/// Texts are joined without anything between them.
pub proof fn law_joined(first: Seq<Seq<char>>, second: Seq<Seq<char>>, text: Seq<char>)
    ensures
        joined(first + second) == joined(first) + joined(second),
        joined(seq![text]) == text,
{
    lemma_joined(first, second);
    let one = seq![text];
    assert(one.drop_last() =~= Seq::empty());
    assert(joined(one.drop_last()) =~= Seq::empty());
    assert(joined(one) =~= text);
}

/// Where other hooks are written, ours comes right behind the last table of one of them:
/// the table before it is part of another hook, and none behind it is. Where none is
/// written, ours comes into the gap.
pub proof fn law_place_of_our_hook(
    read: TomlText,
    hooks: Seq<Map<Seq<char>, TomlItem>>,
    n: int,
    i: int,
)
    ensures
        ({
            let tables = read.layout.tables;
            let at = hook_place(read, hooks);
            &&& 0 <= n < tables.len() && tables[n].owner == Some(("hooks"@, i)) && 0 <= i
                < hooks.len() && !is_ours(hooks[i]) ==> n < at <= tables.len() && (
            tables[at - 1].owner matches Some((key, j)) && key == "hooks"@ && (0 <= j < hooks.len()
                ==> !is_ours(hooks[j])))
            &&& (forall|k: int|
                0 <= k < tables.len() ==> !is_part(#[trigger] tables[k], "hooks"@)) ==> at == (
            read.gap)("hooks"@)
        }),
{
    lemma_up_to_other_hooks(read.layout.tables, hooks);
}

/// Nothing of the rest is lost or moved: without a hook of ours the text is the head, all
/// other tables in their order and the tail; and with one it is the same text with that
/// hook put in at one place.
pub proof fn law_rest_is_written(
    read: TomlText,
    hooks: Seq<Map<Seq<char>, TomlItem>>,
    added: Seq<char>,
)
    requires
        0 <= hook_place(read, hooks) <= read.layout.tables.len(),
    ensures
        rewritten(read, hooks, Seq::empty()) == read.layout.head + joined(
            other_texts(read.layout.tables, hooks),
        ) + read.layout.tail,
        exists|before: Seq<char>, behind: Seq<char>|
            rewritten(read, hooks, added) == #[trigger] (before + added + behind) && rewritten(
                read,
                hooks,
                Seq::empty(),
            ) == before + behind,
{
    let tables = read.layout.tables;
    let at = hook_place(read, hooks);
    let piece = Piece { owner: None, place: 0, text: Seq::empty() };
    let front = other_texts(tables.take(at), hooks);
    let rest = other_texts(tables.skip(at), hooks);
    assert(tables.take(at) + tables.skip(at) =~= tables);
    law_other_tables(tables.take(at), tables.skip(at), piece, hooks, 0);
    lemma_joined(front, rest);
    assert(rewritten(read, hooks, Seq::empty()) =~= read.layout.head + joined(
        other_texts(tables, hooks),
    ) + read.layout.tail);
    let before = read.layout.head + joined(front);
    let behind = joined(rest) + read.layout.tail;
    assert(rewritten(read, hooks, added) =~= before + added + behind);
    assert(rewritten(read, hooks, Seq::empty()) =~= before + behind);
}

/// A text can be written exactly if nowhere in it 256 equal quotation marks stand in a row.
pub proof fn law_rows_of_quotation_marks(text: Seq<char>)
    ensures
        quotes_fit(text) <==> !exists|i: int, mark: char|
            (mark == '"' || mark == '\'') && #[trigger] is_row(text, i, mark),
{
    if exists|i: int, mark: char|
        (mark == '"' || mark == '\'') && #[trigger] is_row(text, i, mark) {
        let (i, mark) = choose|i: int, mark: char|
            (mark == '"' || mark == '\'') && #[trigger] is_row(text, i, mark);
        let front = text.take(i + 256);
        assert forall|k: int| front.len() - 256 <= k < front.len() implies #[trigger] front[k]
            == mark by {
            assert(front[k] == text[k]);
        }
        lemma_marks_counted(front, mark, 256);
    }
    if !quotes_fit(text) {
        let i = choose|i: int|
            0 <= i <= text.len() && (marks_at_end(#[trigger] text.take(i), '\'') > 255
                || marks_at_end(text.take(i), '"') > 255);
        let front = text.take(i);
        let mark = if marks_at_end(front, '"') > 255 {
            '"'
        } else {
            '\''
        };
        lemma_marks_are_there(front, mark);
        assert forall|k: int| i - 256 <= k < i implies #[trigger] text[k] == mark by {
            assert(front[k] == text[k]);
        }
        assert(is_row(text, i - 256, mark));
    }
}

/// From the `i`th character on, 256 characters are `mark`.
pub open spec fn is_row(text: Seq<char>, i: int, mark: char) -> bool {
    0 <= i && i + 256 <= text.len() && forall|k: int| i <= k < i + 256 ==> #[trigger] text[k] == mark
}

proof fn lemma_marks_counted(text: Seq<char>, mark: char, count: int)
    requires
        0 <= count <= text.len(),
        forall|k: int| text.len() - count <= k < text.len() ==> #[trigger] text[k] == mark,
    ensures
        marks_at_end(text, mark) >= count,
    decreases count,
{
    if count > 0 {
        let front = text.drop_last();
        assert(text[text.len() - 1] == mark);
        assert forall|k: int| front.len() - (count - 1) <= k < front.len() implies #[trigger] front[k]
            == mark by {
            assert(front[k] == text[k]);
        }
        lemma_marks_counted(front, mark, count - 1);
    }
}

proof fn lemma_marks_are_there(text: Seq<char>, mark: char)
    ensures
        marks_at_end(text, mark) <= text.len(),
        forall|k: int|
            text.len() - marks_at_end(text, mark) <= k < text.len() ==> #[trigger] text[k] == mark,
    decreases text.len(),
{
    if text.len() > 0 && text.last() == mark {
        let front = text.drop_last();
        lemma_marks_are_there(front, mark);
        assert forall|k: int| text.len() - marks_at_end(text, mark) <= k < text.len() implies
            #[trigger] text[k] == mark by {
            if k < front.len() {
                assert(front[k] == text[k]);
            }
        }
    }
}

/// What the user is told of a failure that comes with words ends in these words, and is
/// the same before them whatever they are.
pub proof fn law_words_of_failures(a: String, b: String)
    ensures
        exists|before: Seq<char>|
            (HookError::Syntax { words: a }).words() == #[trigger] (before + a@) && (
            HookError::Syntax { words: b }).words() == before + b@,
        exists|before: Seq<char>|
            (HookError::NoDirectory { words: a }).words() == #[trigger] (before + a@) && (
            HookError::NoDirectory { words: b }).words() == before + b@,
        exists|before: Seq<char>|
            (HookError::NotWritten { words: a }).words() == #[trigger] (before + a@) && (
            HookError::NotWritten { words: b }).words() == before + b@,
{
    let syntax = "config.toml 解析失败，请检查原有语法："@;
    assert((HookError::Syntax { words: a }).words() == syntax + a@);
    assert((HookError::Syntax { words: b }).words() == syntax + b@);
    let directory = "创建配置目录失败："@;
    assert((HookError::NoDirectory { words: a }).words() == directory + a@);
    assert((HookError::NoDirectory { words: b }).words() == directory + b@);
    let file = "写入 config.toml 失败："@;
    assert((HookError::NotWritten { words: a }).words() == file + a@);
    assert((HookError::NotWritten { words: b }).words() == file + b@);
}

/// What is promised of the text after the switch, in full: it reads as the switched
/// configuration, and it is written as the rest was, with nothing added when switching off
/// and with one piece of text added when switching on.
pub proof fn law_switched_texts(before: Seq<char>, after: Seq<char>, command: Option<Seq<char>>)
    requires
        is_switched(before, after, command),
    ensures
        ({
            let read = configuration(before)->0;
            let hooks = hooks_of(read.items)->0;
            &&& configuration(before) is Some && hooks_of(read.items) is Some
            &&& toml_parsed(after) == Some(switched(read.items, hooks, command))
            &&& configured(after) == Some(switched(read.items, hooks, command))
            &&& command is None ==> after == rewritten(read, hooks, Seq::empty())
            &&& command is Some ==> exists|added: Seq<char>|
                after == #[trigger] rewritten(read, hooks, added)
        }),
{
}

} // verus!
