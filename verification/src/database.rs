//! The clipboard store: history items, collections, tags and the links
//! between items and tags, kept in memory with the ordering and the
//! constraints of the tables they are persisted to.
use vstd::prelude::*;
use vstd::utf8::encode_utf8;
use crate::platform::now_utc;
use crate::text::{chars_of, like, like_exec, name_pos, names_sorted, text_less, text_lt};

verus! {

// ---------------------------------------------------------------------------
// Records
// ---------------------------------------------------------------------------

/// An instant: seconds since the Unix epoch and nanoseconds past that second
/// (above 999_999_999 only inside a leap second).
#[derive(Clone, Copy, Debug, PartialEq, Eq, Structural)]
pub struct Timestamp {
    pub secs: i64,
    pub nanos: u32,
}

/// `a` is strictly earlier than `b`.
pub open spec fn before(a: Timestamp, b: Timestamp) -> bool {
    a.secs < b.secs || (a.secs == b.secs && a.nanos < b.nanos)
}

impl Timestamp {
    /// Whether `self` is strictly earlier than `other`.
    pub fn is_before(&self, other: &Timestamp) -> (r: bool)
        ensures
            r == before(*self, *other),
    {
        self.secs < other.secs || (self.secs == other.secs && self.nanos < other.nanos)
    }
}

/// One entry of the clipboard history.
#[derive(Debug)]
pub struct ClipboardItem {
    pub id: String,
    /// "text", "code", "url", "file", "files" or "image"
    pub content_type: String,
    pub content: String,
    pub preview: String,
    pub hash: String,
    pub is_pinned: bool,
    pub collection_id: Option<String>,
    pub created_at: Timestamp,
    pub expires_at: Option<Timestamp>,
}

/// A copy of an optional string.
pub fn clone_opt_string(o: &Option<String>) -> (r: Option<String>)
    ensures
        r == *o,
{
    match o {
        Some(s) => Some(s.clone()),
        None => None,
    }
}

impl Clone for ClipboardItem {
    fn clone(&self) -> (r: Self)
        ensures
            r == *self,
    {
        ClipboardItem {
            id: self.id.clone(),
            content_type: self.content_type.clone(),
            content: self.content.clone(),
            preview: self.preview.clone(),
            hash: self.hash.clone(),
            is_pinned: self.is_pinned,
            collection_id: clone_opt_string(&self.collection_id),
            created_at: self.created_at,
            expires_at: self.expires_at,
        }
    }
}

/// A named, coloured group of history items.
#[derive(Debug)]
pub struct Collection {
    pub id: String,
    pub name: String,
    pub color: String,
    pub created_at: Timestamp,
}

impl Clone for Collection {
    fn clone(&self) -> (r: Self)
        ensures
            r == *self,
    {
        Collection {
            id: self.id.clone(),
            name: self.name.clone(),
            color: self.color.clone(),
            created_at: self.created_at,
        }
    }
}

/// A label that items can carry.
#[derive(Debug)]
pub struct Tag {
    pub id: String,
    pub name: String,
}

impl Clone for Tag {
    fn clone(&self) -> (r: Self)
        ensures
            r == *self,
    {
        Tag { id: self.id.clone(), name: self.name.clone() }
    }
}

/// Why the store refused an operation: a key that is taken, a reference to
/// a row that is not stored, or a search pattern that is too long.
#[derive(Debug, PartialEq, Eq, Structural)]
pub enum DbError {
    ItemIdTaken,
    CollectionIdTaken,
    /// A search pattern above SQLite's `LIKE` length limit.
    PatternTooComplex,
    /// A link to an item or a tag that is not stored.
    ForeignKeyFailed,
}

impl DbError {
    /// The text of the constraint failure.
    pub fn message(&self) -> (r: String)
        ensures
            *self == DbError::ItemIdTaken ==> r@ == "UNIQUE constraint failed: clipboard_items.id"@,
            *self == DbError::CollectionIdTaken ==> r@
                == "UNIQUE constraint failed: collections.id"@,
            *self == DbError::PatternTooComplex ==> r@ == "LIKE or GLOB pattern too complex"@,
            *self == DbError::ForeignKeyFailed ==> r@ == "FOREIGN KEY constraint failed"@,
    {
        match self {
            DbError::ForeignKeyFailed => "FOREIGN KEY constraint failed".to_owned(),
            DbError::PatternTooComplex => "LIKE or GLOB pattern too complex".to_owned(),
            DbError::ItemIdTaken => "UNIQUE constraint failed: clipboard_items.id".to_owned(),
            DbError::CollectionIdTaken => "UNIQUE constraint failed: collections.id".to_owned(),
        }
    }
}

// ---------------------------------------------------------------------------
// The model of the store
// ---------------------------------------------------------------------------

/// The view of an optional string.
pub open spec fn opt_text(o: Option<String>) -> Option<Seq<char>> {
    match o {
        Some(s) => Some(s@),
        None => None,
    }
}

/// The view of an optional string slice.
pub open spec fn opt_str(o: Option<&str>) -> Option<Seq<char>> {
    match o {
        Some(s) => Some(s@),
        None => None,
    }
}

/// No two items share an id.
pub open spec fn unique_item_ids(items: Seq<ClipboardItem>) -> bool {
    forall|i: int, j: int|
        0 <= i < items.len() && 0 <= j < items.len() && i != j ==> items[i].id@ != items[j].id@
}

/// Items run from the newest to the oldest.
pub open spec fn newest_first(items: Seq<ClipboardItem>) -> bool {
    forall|i: int, j: int|
        0 <= i < j < items.len() ==> !before(items[i].created_at, items[j].created_at)
}

/// The item with the given id, if there is one.
pub open spec fn find_item(items: Seq<ClipboardItem>, id: Seq<char>) -> Option<ClipboardItem> {
    if exists|k: int| 0 <= k < items.len() && items[k].id@ == id {
        Some(items[choose|k: int| 0 <= k < items.len() && items[k].id@ == id])
    } else {
        None
    }
}

/// Where an item created at `t` goes: after every item that is not older.
pub open spec fn insert_pos(items: Seq<ClipboardItem>, t: Timestamp) -> nat
    decreases items.len(),
{
    if items.len() == 0 {
        0
    } else if before(items[0].created_at, t) {
        0
    } else {
        1 + insert_pos(items.drop_first(), t)
    }
}

/// The test "the id differs from `id`".
pub open spec fn id_differs(id: Seq<char>) -> spec_fn(ClipboardItem) -> bool {
    |it: ClipboardItem| it.id@ != id
}

/// The test "pinned".
pub open spec fn is_pinned_item() -> spec_fn(ClipboardItem) -> bool {
    |it: ClipboardItem| it.is_pinned
}

/// The items whose id differs from `id`.
pub open spec fn items_without(items: Seq<ClipboardItem>, id: Seq<char>) -> Seq<ClipboardItem> {
    items.filter(id_differs(id))
}

/// The pinned items.
pub open spec fn pinned_items(items: Seq<ClipboardItem>) -> Seq<ClipboardItem> {
    items.filter(is_pinned_item())
}

/// How many items are not pinned.
pub open spec fn unpinned_count(items: Seq<ClipboardItem>) -> nat
    decreases items.len(),
{
    if items.len() == 0 {
        0
    } else {
        unpinned_count(items.drop_last()) + if items.last().is_pinned {
            0nat
        } else {
            1nat
        }
    }
}

/// Every pinned item and the first `limit` unpinned ones, in order.
pub open spec fn within_limit(items: Seq<ClipboardItem>, limit: nat) -> Seq<ClipboardItem>
    decreases items.len(),
{
    if items.len() == 0 {
        items
    } else {
        let kept = within_limit(items.drop_last(), limit);
        if items.last().is_pinned || unpinned_count(items.drop_last()) < limit {
            kept.push(items.last())
        } else {
            kept
        }
    }
}

/// The item has an expiry that lies strictly before `now`.
pub open spec fn expired(it: ClipboardItem, now: Timestamp) -> bool {
    it.expires_at matches Some(e) && before(e, now)
}

/// The items that have not expired at `now`.
pub open spec fn unexpired_items(items: Seq<ClipboardItem>, now: Timestamp) -> Seq<
    ClipboardItem,
> {
    items.filter(|it: ClipboardItem| !expired(it, now))
}

/// `'%' + s + '%'`: the pattern a search text is matched with.
pub open spec fn search_pattern(s: Seq<char>) -> Seq<char> {
    seq!['%'] + s + seq!['%']
}

/// The item passes the search filter and the collection filter of a listing.
pub open spec fn matches_query(
    it: ClipboardItem,
    search: Option<Seq<char>>,
    collection: Option<Seq<char>>,
) -> bool {
    &&& (search matches Some(s) ==> like(search_pattern(s), it.content@) || like(
        search_pattern(s),
        it.preview@,
    ))
    &&& (collection matches Some(c) ==> opt_text(it.collection_id) == Some(c))
}

/// The items that match the query and whose pinned flag is `pinned`, in order.
pub open spec fn selected(
    items: Seq<ClipboardItem>,
    search: Option<Seq<char>>,
    collection: Option<Seq<char>>,
    pinned: bool,
) -> Seq<ClipboardItem> {
    items.filter(
        |it: ClipboardItem| matches_query(it, search, collection) && it.is_pinned == pinned,
    )
}

/// The matching items, pinned ones first, each group newest first.
pub open spec fn listing(
    items: Seq<ClipboardItem>,
    search: Option<Seq<char>>,
    collection: Option<Seq<char>>,
) -> Seq<ClipboardItem> {
    selected(items, search, collection, true) + selected(items, search, collection, false)
}

/// At most `limit` elements of `s`, skipping the first `offset`.
pub open spec fn page<A>(s: Seq<A>, offset: nat, limit: nat) -> Seq<A> {
    if offset >= s.len() {
        Seq::empty()
    } else if offset + limit >= s.len() {
        s.subrange(offset as int, s.len() as int)
    } else {
        s.subrange(offset as int, (offset + limit) as int)
    }
}

/// Each item with the given id has its pinned flag set to `pinned`.
pub open spec fn items_pinned(items: Seq<ClipboardItem>, id: Seq<char>, pinned: bool) -> Seq<
    ClipboardItem,
> {
    Seq::new(
        items.len(),
        |k: int|
            if items[k].id@ == id {
                ClipboardItem { is_pinned: pinned, ..items[k] }
            } else {
                items[k]
            },
    )
}

/// Each item with the given id has its collection set to `collection`.
pub open spec fn items_moved(
    items: Seq<ClipboardItem>,
    id: Seq<char>,
    collection: Option<String>,
) -> Seq<ClipboardItem> {
    Seq::new(
        items.len(),
        |k: int|
            if items[k].id@ == id {
                ClipboardItem { collection_id: collection, ..items[k] }
            } else {
                items[k]
            },
    )
}

/// Each item with the given id has its expiry set to `expires_at`.
pub open spec fn items_expiring(
    items: Seq<ClipboardItem>,
    id: Seq<char>,
    expires_at: Option<Timestamp>,
) -> Seq<ClipboardItem> {
    Seq::new(
        items.len(),
        |k: int|
            if items[k].id@ == id {
                ClipboardItem { expires_at: expires_at, ..items[k] }
            } else {
                items[k]
            },
    )
}

/// Every item in the given collection leaves it.
pub open spec fn items_released(items: Seq<ClipboardItem>, collection: Seq<char>) -> Seq<
    ClipboardItem,
> {
    Seq::new(
        items.len(),
        |k: int|
            if opt_text(items[k].collection_id) == Some(collection) {
                ClipboardItem { collection_id: None, ..items[k] }
            } else {
                items[k]
            },
    )
}

/// No two collections share an id.
pub open spec fn unique_collection_ids(cs: Seq<Collection>) -> bool {
    forall|i: int, j: int| 0 <= i < cs.len() && 0 <= j < cs.len() && i != j ==> cs[i].id@ != cs[j].id@
}

/// The collection names, in order.
pub open spec fn collection_names(cs: Seq<Collection>) -> Seq<Seq<char>> {
    cs.map_values(|c: Collection| c.name@)
}

/// No two tags share an id.
pub open spec fn unique_tag_ids(ts: Seq<Tag>) -> bool {
    forall|i: int, j: int| 0 <= i < ts.len() && 0 <= j < ts.len() && i != j ==> ts[i].id@ != ts[j].id@
}

/// No two tags share a name.
pub open spec fn unique_tag_names(ts: Seq<Tag>) -> bool {
    forall|i: int, j: int|
        0 <= i < ts.len() && 0 <= j < ts.len() && i != j ==> ts[i].name@ != ts[j].name@
}

/// The tag names, in order.
pub open spec fn tag_names(ts: Seq<Tag>) -> Seq<Seq<char>> {
    ts.map_values(|t: Tag| t.name@)
}

/// The position of the collection with the given id, if any.
pub open spec fn find_collection(cs: Seq<Collection>, id: Seq<char>) -> Option<int> {
    if exists|k: int| 0 <= k < cs.len() && cs[k].id@ == id {
        Some(choose|k: int| 0 <= k < cs.len() && cs[k].id@ == id)
    } else {
        None
    }
}

/// The collections with `c` added at its place by name.
pub open spec fn collections_with(cs: Seq<Collection>, c: Collection) -> Seq<Collection> {
    cs.insert(name_pos(collection_names(cs), c.name@) as int, c)
}

/// The collections without the one with the given id.
pub open spec fn collections_without(cs: Seq<Collection>, id: Seq<char>) -> Seq<Collection> {
    match find_collection(cs, id) {
        Some(k) => cs.remove(k),
        None => cs,
    }
}

/// Whether some tag has the id or the name of `t`.
pub open spec fn tag_clashes(ts: Seq<Tag>, t: Tag) -> bool {
    exists|k: int| 0 <= k < ts.len() && (ts[k].id@ == t.id@ || ts[k].name@ == t.name@)
}

/// The tags with `t` added at its place by name.
pub open spec fn tags_with(ts: Seq<Tag>, t: Tag) -> Seq<Tag> {
    ts.insert(name_pos(tag_names(ts), t.name@) as int, t)
}

/// The links with `(item, tag)` added unless it is there already.
pub open spec fn links_with(
    links: Seq<(Seq<char>, Seq<char>)>,
    item: Seq<char>,
    tag: Seq<char>,
) -> Seq<(Seq<char>, Seq<char>)> {
    if links.contains((item, tag)) {
        links
    } else {
        links.push((item, tag))
    }
}

/// The links without `(item, tag)`.
pub open spec fn links_without(
    links: Seq<(Seq<char>, Seq<char>)>,
    item: Seq<char>,
    tag: Seq<char>,
) -> Seq<(Seq<char>, Seq<char>)> {
    if links.contains((item, tag)) {
        links.remove(links.index_of((item, tag)))
    } else {
        links
    }
}

/// The tags linked to the item, in tag order.
pub open spec fn tags_of_item(
    ts: Seq<Tag>,
    links: Seq<(Seq<char>, Seq<char>)>,
    item: Seq<char>,
) -> Seq<Tag> {
    ts.filter(|t: Tag| links.contains((item, t.id@)))
}

/// The ids of the items, in order.
pub open spec fn item_ids(items: Seq<ClipboardItem>) -> Seq<Seq<char>> {
    items.map_values(|it: ClipboardItem| it.id@)
}

/// The ids of the tags, in order.
pub open spec fn tag_ids(ts: Seq<Tag>) -> Seq<Seq<char>> {
    ts.map_values(|t: Tag| t.id@)
}

/// Every link names a stored item (its item id references the items table).
pub open spec fn links_name_items(
    links: Seq<(Seq<char>, Seq<char>)>,
    items: Seq<ClipboardItem>,
) -> bool {
    forall|k: int| 0 <= k < links.len() ==> item_ids(items).contains(#[trigger] links[k].0)
}

/// Every link names a stored tag (its tag id references the tags table).
pub open spec fn links_name_tags(links: Seq<(Seq<char>, Seq<char>)>, ts: Seq<Tag>) -> bool {
    forall|k: int| 0 <= k < links.len() ==> tag_ids(ts).contains(#[trigger] links[k].1)
}

/// The links whose item is among `items`. Removing items removes their links
/// with them: the link's item id references the items table `ON DELETE
/// CASCADE`.
pub open spec fn links_of(
    links: Seq<(Seq<char>, Seq<char>)>,
    items: Seq<ClipboardItem>,
) -> Seq<(Seq<char>, Seq<char>)> {
    links.filter(|l: (Seq<char>, Seq<char>)| item_ids(items).contains(l.0))
}

/// Everything the store holds.
pub struct DbModel {
    pub items: Seq<ClipboardItem>,
    pub collections: Seq<Collection>,
    pub tags: Seq<Tag>,
    pub item_tags: Seq<(Seq<char>, Seq<char>)>,
}

impl DbModel {
    /// The table constraints and the order the store keeps.
    pub open spec fn wf(self) -> bool {
        &&& self.rows_wf()
        &&& self.item_tags.no_duplicates()
        &&& links_name_items(self.item_tags, self.items)
        &&& links_name_tags(self.item_tags, self.tags)
    }

    /// The constraints of the items, collections and tags tables, and their
    /// order.
    pub open spec fn rows_wf(self) -> bool {
        &&& unique_item_ids(self.items)
        &&& newest_first(self.items)
        &&& unique_collection_ids(self.collections)
        &&& names_sorted(collection_names(self.collections))
        &&& unique_tag_ids(self.tags)
        &&& unique_tag_names(self.tags)
        &&& names_sorted(tag_names(self.tags))
    }

    /// The store with its history cut down to `items`: the links of the items
    /// that went are removed with them.
    pub open spec fn keeping(self, items: Seq<ClipboardItem>) -> DbModel {
        DbModel { items, item_tags: links_of(self.item_tags, items), ..self }
    }

    /// The item with the given id, if any.
    pub open spec fn lookup(self, id: Seq<char>) -> Option<ClipboardItem> {
        find_item(self.items, id)
    }

    /// The hash of the newest item, if any.
    pub open spec fn last_hash(self) -> Option<Seq<char>> {
        if self.items.len() == 0 {
            None
        } else {
            Some(self.items[0].hash@)
        }
    }

    /// The store with `item` added at its place in the history.
    pub open spec fn with_item(self, item: ClipboardItem) -> DbModel {
        DbModel {
            items: self.items.insert(insert_pos(self.items, item.created_at) as int, item),
            ..self
        }
    }
}

// ---------------------------------------------------------------------------
// The store
// ---------------------------------------------------------------------------

/// The clipboard store.
pub struct Database {
    items: Vec<ClipboardItem>,
    collections: Vec<Collection>,
    tags: Vec<Tag>,
    item_tags: Vec<(String, String)>,
}

/// The views of the two ids of a link between an item and a tag.
pub open spec fn link_view(p: (String, String)) -> (Seq<char>, Seq<char>) {
    (p.0@, p.1@)
}

/// The views of a sequence of links.
pub open spec fn links_view(v: Seq<(String, String)>) -> Seq<(Seq<char>, Seq<char>)> {
    v.map_values(|p: (String, String)| link_view(p))
}

impl View for Database {
    type V = DbModel;

    closed spec fn view(&self) -> DbModel {
        DbModel {
            items: self.items@,
            collections: self.collections@,
            tags: self.tags@,
            item_tags: links_view(self.item_tags@),
        }
    }
}

proof fn lemma_insert_pos(items: Seq<ClipboardItem>, t: Timestamp, k: int)
    requires
        0 <= k <= items.len(),
        forall|m: int| 0 <= m < k ==> !before(#[trigger] items[m].created_at, t),
        k < items.len() ==> before(items[k].created_at, t),
    ensures
        insert_pos(items, t) == k,
    decreases k,
{
    if k > 0 {
        let rest = items.drop_first();
        assert forall|m: int| 0 <= m < k - 1 implies !before(#[trigger] rest[m].created_at, t) by {
            assert(rest[m] == items[m + 1]);
        }
        if k - 1 < rest.len() {
            assert(rest[k - 1] == items[k]);
        }
        lemma_insert_pos(rest, t, k - 1);
    }
}

proof fn lemma_find_item_at(items: Seq<ClipboardItem>, id: Seq<char>, k: int)
    requires
        unique_item_ids(items),
        0 <= k < items.len(),
        items[k].id@ == id,
    ensures
        find_item(items, id) == Some(items[k]),
{
}

proof fn lemma_push_keeps_order(r: Seq<ClipboardItem>, s: Seq<ClipboardItem>)
    requires
        s.len() > 0,
        unique_item_ids(s),
        newest_first(s),
        unique_item_ids(r),
        newest_first(r),
        forall|x: ClipboardItem| r.contains(x) ==> s.drop_last().contains(x),
    ensures
        unique_item_ids(r.push(s.last())),
        newest_first(r.push(s.last())),
        forall|x: ClipboardItem| r.push(s.last()).contains(x) ==> s.contains(x),
{
    let t = r.push(s.last());
    let n = s.len() - 1;
    assert forall|i: int| 0 <= i < r.len() implies t[i].id@ != s.last().id@ && !before(
        t[i].created_at,
        s.last().created_at,
    ) by {
        assert(r.contains(r[i]));
        let m = choose|m: int| 0 <= m < s.drop_last().len() && s.drop_last()[m] == r[i];
        assert(s[m] == r[i]);
        assert(t[i] == r[i]);
    }
    assert forall|x: ClipboardItem| t.contains(x) implies s.contains(x) by {
        let i = choose|i: int| 0 <= i < t.len() && t[i] == x;
        if i == r.len() {
            assert(s[n] == x);
        } else {
            assert(r[i] == x);
            assert(r.contains(x));
            let m = choose|m: int| 0 <= m < s.drop_last().len() && s.drop_last()[m] == x;
            assert(s[m] == x);
        }
    }
    assert forall|i: int, j: int| 0 <= i < t.len() && 0 <= j < t.len() && i != j implies t[i].id@
        != t[j].id@ by {
        if i < r.len() && j < r.len() {
            assert(t[i] == r[i] && t[j] == r[j]);
        }
    }
    assert forall|i: int, j: int| 0 <= i < j < t.len() implies !before(
        t[i].created_at,
        t[j].created_at,
    ) by {
        if j < r.len() {
            assert(t[i] == r[i] && t[j] == r[j]);
        }
    }
}

proof fn lemma_prefix_keeps_order(s: Seq<ClipboardItem>)
    requires
        s.len() > 0,
        unique_item_ids(s),
        newest_first(s),
    ensures
        unique_item_ids(s.drop_last()),
        newest_first(s.drop_last()),
{
    let d = s.drop_last();
    assert forall|i: int, j: int| 0 <= i < d.len() && 0 <= j < d.len() && i != j implies d[i].id@
        != d[j].id@ by {
        assert(d[i] == s[i] && d[j] == s[j]);
    }
    assert forall|i: int, j: int| 0 <= i < j < d.len() implies !before(
        d[i].created_at,
        d[j].created_at,
    ) by {
        assert(d[i] == s[i] && d[j] == s[j]);
    }
}

proof fn lemma_filter_keeps_order(s: Seq<ClipboardItem>, pred: spec_fn(ClipboardItem) -> bool)
    requires
        unique_item_ids(s),
        newest_first(s),
    ensures
        unique_item_ids(s.filter(pred)),
        newest_first(s.filter(pred)),
        forall|x: ClipboardItem| s.filter(pred).contains(x) ==> s.contains(x),
    decreases s.len(),
{
    reveal(Seq::filter);
    if s.len() > 0 {
        lemma_prefix_keeps_order(s);
        lemma_filter_keeps_order(s.drop_last(), pred);
        if pred(s.last()) {
            lemma_push_keeps_order(s.drop_last().filter(pred), s);
        } else {
            assert forall|x: ClipboardItem| s.filter(pred).contains(x) implies s.contains(x) by {
                assert(s.drop_last().contains(x));
                let m = choose|m: int| 0 <= m < s.drop_last().len() && s.drop_last()[m] == x;
                assert(s[m] == x);
            }
        }
    }
}

proof fn lemma_within_limit_keeps_order(s: Seq<ClipboardItem>, limit: nat)
    requires
        unique_item_ids(s),
        newest_first(s),
    ensures
        unique_item_ids(within_limit(s, limit)),
        newest_first(within_limit(s, limit)),
        forall|x: ClipboardItem| within_limit(s, limit).contains(x) ==> s.contains(x),
    decreases s.len(),
{
    if s.len() > 0 {
        lemma_prefix_keeps_order(s);
        lemma_within_limit_keeps_order(s.drop_last(), limit);
        if s.last().is_pinned || unpinned_count(s.drop_last()) < limit {
            lemma_push_keeps_order(within_limit(s.drop_last(), limit), s);
        } else {
            assert forall|x: ClipboardItem| within_limit(s, limit).contains(x) implies s.contains(
                x,
            ) by {
                assert(s.drop_last().contains(x));
                let m = choose|m: int| 0 <= m < s.drop_last().len() && s.drop_last()[m] == x;
                assert(s[m] == x);
            }
        }
    }
}

proof fn lemma_update_keeps_order(s: Seq<ClipboardItem>, t: Seq<ClipboardItem>)
    requires
        unique_item_ids(s),
        newest_first(s),
        t.len() == s.len(),
        forall|k: int|
            0 <= k < s.len() ==> #[trigger] t[k].id@ == s[k].id@ && t[k].created_at
                == s[k].created_at,
    ensures
        unique_item_ids(t),
        newest_first(t),
        item_ids(t) == item_ids(s),
{
    assert(item_ids(t) =~= item_ids(s));
    assert forall|i: int, j: int| 0 <= i < t.len() && 0 <= j < t.len() && i != j implies t[i].id@
        != t[j].id@ by {
        assert(t[i].id@ == s[i].id@ && t[j].id@ == s[j].id@);
    }
    assert forall|i: int, j: int| 0 <= i < j < t.len() implies !before(
        t[i].created_at,
        t[j].created_at,
    ) by {
        assert(t[i].created_at == s[i].created_at && t[j].created_at == s[j].created_at);
    }
}

impl Database {
    /// An empty store.
    pub fn new() -> (db: Database)
        ensures
            db@.items.len() == 0,
            db@.collections.len() == 0,
            db@.tags.len() == 0,
            db@.item_tags.len() == 0,
            db@.wf(),
    {
        Database {
            items: Vec::new(),
            collections: Vec::new(),
            tags: Vec::new(),
            item_tags: Vec::new(),
        }
    }

    /// The position of the item with the given id.
    fn item_index(&self, id: &str) -> (r: Option<usize>)
        ensures
            match r {
                Some(k) => k < self@.items.len() && self@.items[k as int].id@ == id@,
                None => forall|k: int|
                    0 <= k < self@.items.len() ==> #[trigger] self@.items[k].id@ != id@,
            },
    {
        let key = id.to_owned();
        let mut k: usize = 0;
        while k < self.items.len()
            invariant
                key@ == id@,
                k <= self.items@.len(),
                forall|m: int| 0 <= m < k ==> #[trigger] self.items@[m].id@ != id@,
            decreases self.items.len() - k,
        {
            if self.items[k].id == key {
                return Some(k);
            }
            k = k + 1;
        }
        None
    }

    /// Whether some item in `items` has the id.
    fn has_item(items: &Vec<ClipboardItem>, id: &String) -> (r: bool)
        ensures
            r == item_ids(items@).contains(id@),
    {
        let mut k: usize = 0;
        while k < items.len()
            invariant
                k <= items@.len(),
                forall|m: int| 0 <= m < k ==> #[trigger] items@[m].id@ != id@,
            decreases items.len() - k,
        {
            if items[k].id == *id {
                assert(item_ids(items@)[k as int] == id@);
                return true;
            }
            k = k + 1;
        }
        assert forall|j: int| 0 <= j < item_ids(items@).len() implies item_ids(items@)[j]
            != id@ by {
            assert(item_ids(items@)[j] == items@[j].id@);
        }
        false
    }

    /// Removes the links whose item is gone, as the cascade of the items
    /// table does.
    fn drop_dangling_links(&mut self)
        requires
            old(self)@.rows_wf(),
            old(self)@.item_tags.no_duplicates(),
            links_name_tags(old(self)@.item_tags, old(self)@.tags),
        ensures
            final(self)@ == (DbModel {
                item_tags: links_of(old(self)@.item_tags, old(self)@.items),
                ..old(self)@
            }),
            final(self)@.wf(),
    {
        let ghost l0 = links_view(self.item_tags@);
        let ghost items = self.items@;
        let ghost pred = |l: (Seq<char>, Seq<char>)| item_ids(items).contains(l.0);
        let mut kept: Vec<(String, String)> = Vec::new();
        let mut k: usize = 0;
        while k < self.item_tags.len()
            invariant
                l0 == links_view(self.item_tags@),
                items == self.items@,
                pred == (|l: (Seq<char>, Seq<char>)| item_ids(items).contains(l.0)),
                k <= l0.len(),
                links_view(kept@) == l0.take(k as int).filter(pred),
            decreases self.item_tags.len() - k,
        {
            proof {
                reveal(Seq::filter);
                assert(l0.take(k + 1).drop_last() =~= l0.take(k as int));
                assert(l0.take(k + 1).last() == l0[k as int]);
            }
            if Self::has_item(&self.items, &self.item_tags[k].0) {
                let pair = (self.item_tags[k].0.clone(), self.item_tags[k].1.clone());
                let ghost before_push = kept@;
                kept.push(pair);
                assert(links_view(kept@) =~= links_view(before_push).push(l0[k as int]));
            }
            k = k + 1;
        }
        assert(l0.take(k as int) =~= l0);
        proof {
            broadcast use Seq::lemma_filter_pred, Seq::lemma_filter_contains_rev;

            let f = l0.filter(pred);
            lemma_filter_no_duplicates(l0, pred);
            assert forall|j: int| 0 <= j < f.len() implies tag_ids(self.tags@).contains(
                #[trigger] f[j].1,
            ) by {
                assert(f.contains(f[j]));
                assert(l0.contains(f[j]));
                let m = choose|m: int| 0 <= m < l0.len() && l0[m] == f[j];
                assert(tag_ids(self.tags@).contains(l0[m].1));
            }
            assert forall|j: int| 0 <= j < f.len() implies item_ids(items).contains(
                #[trigger] f[j].0,
            ) by {
                assert(pred(f[j]));
            }
        }
        self.item_tags = kept;
    }

    /// Adds an item to the history at its place by creation time. Fails when
    /// the id is taken.
    pub fn insert_item(&mut self, item: &ClipboardItem) -> (r: Result<(), DbError>)
        requires
            old(self)@.wf(),
        ensures
            final(self)@.wf(),
            old(self)@.lookup(item.id@) is Some ==> r == Err::<(), DbError>(DbError::ItemIdTaken)
                && final(self)@ == old(self)@,
            old(self)@.lookup(item.id@) is None ==> r is Ok && final(self)@ == old(self)@.with_item(
                *item,
            ),
    {
        match self.item_index(item.id.as_str()) {
            Some(k) => {
                proof {
                    lemma_find_item_at(self@.items, item.id@, k as int);
                }
                return Err(DbError::ItemIdTaken);
            },
            None => {},
        }
        let t = item.created_at;
        let mut p: usize = 0;
        while p < self.items.len() && !self.items[p].created_at.is_before(&t)
            invariant
                p <= self.items@.len(),
                forall|m: int| 0 <= m < p ==> !before(#[trigger] self.items@[m].created_at, t),
            decreases self.items.len() - p,
        {
            p = p + 1;
        }
        proof {
            lemma_insert_pos(self.items@, t, p as int);
        }
        let ghost old_items = self.items@;
        self.items.insert(p, item.clone());
        proof {
            assert(self.items@ == old_items.insert(p as int, *item));
            let links = self@.item_tags;
            assert forall|k: int| 0 <= k < links.len() implies item_ids(self.items@).contains(
                #[trigger] links[k].0,
            ) by {
                lemma_item_ids_insert(old_items, p as int, *item, links[k].0);
            }
            assert forall|i: int, j: int|
                0 <= i < self.items@.len() && 0 <= j < self.items@.len() && i != j implies
                self.items@[i].id@ != self.items@[j].id@ by {
                if i != p && j != p {
                    let oi = if i < p { i } else { i - 1 };
                    let oj = if j < p { j } else { j - 1 };
                    assert(self.items@[i] == old_items[oi]);
                    assert(self.items@[j] == old_items[oj]);
                } else if i == p {
                    let oj = if j < p { j } else { j - 1 };
                    assert(self.items@[j] == old_items[oj]);
                } else {
                    let oi = if i < p { i } else { i - 1 };
                    assert(self.items@[i] == old_items[oi]);
                }
            }
            assert forall|i: int, j: int| 0 <= i < j < self.items@.len() implies !before(
                self.items@[i].created_at,
                self.items@[j].created_at,
            ) by {
                if j < p {
                    assert(self.items@[i] == old_items[i]);
                    assert(self.items@[j] == old_items[j]);
                } else if i > p {
                    assert(self.items@[i] == old_items[i - 1]);
                    assert(self.items@[j] == old_items[j - 1]);
                } else if i == p {
                    assert(self.items@[i] == *item);
                    assert(self.items@[j] == old_items[j - 1]);
                    assert(before(old_items[p as int].created_at, t));
                    assert(!before(old_items[p as int].created_at, old_items[j - 1].created_at)
                        || p == j - 1);
                } else if j == p {
                    assert(self.items@[i] == old_items[i]);
                    assert(self.items@[j] == *item);
                } else {
                    assert(self.items@[i] == old_items[i]);
                    assert(self.items@[j] == old_items[j - 1]);
                }
            }
        }
        Ok(())
    }

    /// The item with the given id, if any.
    pub fn get_item(&self, id: &str) -> (r: Result<Option<ClipboardItem>, DbError>)
        requires
            self@.wf(),
        ensures
            r == Ok::<Option<ClipboardItem>, DbError>(self@.lookup(id@)),
    {
        match self.item_index(id) {
            Some(k) => {
                proof {
                    lemma_find_item_at(self@.items, id@, k as int);
                }
                Ok(Some(self.items[k].clone()))
            },
            None => Ok(None),
        }
    }
}

impl Database {
    /// The hash of the newest item, if the history is not empty.
    pub fn get_last_hash(&self) -> (r: Result<Option<String>, DbError>)
        requires
            self@.wf(),
        ensures
            r matches Ok(h) && opt_text(h) == self@.last_hash(),
    {
        if self.items.len() == 0 {
            Ok(None)
        } else {
            Ok(Some(self.items[0].hash.clone()))
        }
    }

    /// Removes the item with the given id, if there is one.
    pub fn delete_item(&mut self, id: &str) -> (r: Result<(), DbError>)
        requires
            old(self)@.wf(),
        ensures
            r is Ok,
            final(self)@.wf(),
            final(self)@ == old(self)@.keeping(items_without(old(self)@.items, id@)),
    {
        let key = id.to_owned();
        let ghost items0 = self.items@;
        let mut kept: Vec<ClipboardItem> = Vec::new();
        let mut k: usize = 0;
        while k < self.items.len()
            invariant
                key@ == id@,
                self.items@ == items0,
                k <= items0.len(),
                kept@ == items_without(items0.take(k as int), id@),
            decreases self.items.len() - k,
        {
            proof {
                reveal(Seq::filter);
                assert(items0.take(k + 1).drop_last() =~= items0.take(k as int));
                assert(items0.take(k + 1).last() == items0[k as int]);
            }
            if self.items[k].id != key {
                kept.push(self.items[k].clone());
            }
            k = k + 1;
        }
        assert(items0.take(k as int) =~= items0);
        proof {
            lemma_filter_keeps_order(items0, id_differs(id@));
        }
        self.items = kept;
        self.drop_dangling_links();
        Ok(())
    }

    /// Sets the pinned flag of the item with the given id, if there is one.
    fn set_pinned(&mut self, id: &str, pinned: bool)
        requires
            old(self)@.wf(),
        ensures
            final(self)@.wf(),
            final(self)@ == (DbModel {
                items: items_pinned(old(self)@.items, id@, pinned),
                ..old(self)@
            }),
    {
        let ghost items0 = self.items@;
        match self.item_index(id) {
            Some(k) => {
                let mut it = self.items[k].clone();
                it.is_pinned = pinned;
                self.items.set(k, it);
                proof {
                    assert forall|m: int| 0 <= m < items0.len() && m != k implies items0[m].id@
                        != id@ by {}
                }
            },
            None => {},
        }
        assert(self.items@ =~= items_pinned(items0, id@, pinned));
        proof {
            lemma_update_keeps_order(items0, self.items@);
        }
    }

    /// Pins the item with the given id, if there is one.
    pub fn pin_item(&mut self, id: &str) -> (r: Result<(), DbError>)
        requires
            old(self)@.wf(),
        ensures
            r is Ok,
            final(self)@.wf(),
            final(self)@ == (DbModel {
                items: items_pinned(old(self)@.items, id@, true),
                ..old(self)@
            }),
    {
        self.set_pinned(id, true);
        Ok(())
    }

    /// Unpins the item with the given id, if there is one.
    pub fn unpin_item(&mut self, id: &str) -> (r: Result<(), DbError>)
        requires
            old(self)@.wf(),
        ensures
            r is Ok,
            final(self)@.wf(),
            final(self)@ == (DbModel {
                items: items_pinned(old(self)@.items, id@, false),
                ..old(self)@
            }),
    {
        self.set_pinned(id, false);
        Ok(())
    }

    /// Removes every item that is not pinned.
    pub fn clear_history(&mut self) -> (r: Result<(), DbError>)
        requires
            old(self)@.wf(),
        ensures
            r is Ok,
            final(self)@.wf(),
            final(self)@ == old(self)@.keeping(pinned_items(old(self)@.items)),
    {
        let ghost items0 = self.items@;
        let mut kept: Vec<ClipboardItem> = Vec::new();
        let mut k: usize = 0;
        while k < self.items.len()
            invariant
                self.items@ == items0,
                k <= items0.len(),
                kept@ == pinned_items(items0.take(k as int)),
            decreases self.items.len() - k,
        {
            proof {
                reveal(Seq::filter);
                assert(items0.take(k + 1).drop_last() =~= items0.take(k as int));
                assert(items0.take(k + 1).last() == items0[k as int]);
            }
            if self.items[k].is_pinned {
                kept.push(self.items[k].clone());
            }
            k = k + 1;
        }
        assert(items0.take(k as int) =~= items0);
        proof {
            lemma_filter_keeps_order(items0, is_pinned_item());
        }
        self.items = kept;
        self.drop_dangling_links();
        Ok(())
    }

    /// Keeps every pinned item and the `limit` newest unpinned ones.
    pub fn enforce_limit(&mut self, limit: u32) -> (r: Result<(), DbError>)
        requires
            old(self)@.wf(),
        ensures
            r is Ok,
            final(self)@.wf(),
            final(self)@ == old(self)@.keeping(within_limit(old(self)@.items, limit as nat)),
    {
        let ghost items0 = self.items@;
        let mut kept: Vec<ClipboardItem> = Vec::new();
        let mut unpinned: usize = 0;
        let mut k: usize = 0;
        while k < self.items.len()
            invariant
                self.items@ == items0,
                k <= items0.len(),
                unpinned <= k,
                unpinned == unpinned_count(items0.take(k as int)),
                kept@ == within_limit(items0.take(k as int), limit as nat),
            decreases self.items.len() - k,
        {
            proof {
                assert(items0.take(k + 1).drop_last() =~= items0.take(k as int));
                assert(items0.take(k + 1).last() == items0[k as int]);
            }
            let pinned = self.items[k].is_pinned;
            if pinned || unpinned < limit as usize {
                kept.push(self.items[k].clone());
            }
            if !pinned {
                unpinned = unpinned + 1;
            }
            k = k + 1;
        }
        assert(items0.take(k as int) =~= items0);
        proof {
            lemma_within_limit_keeps_order(items0, limit as nat);
        }
        self.items = kept;
        self.drop_dangling_links();
        Ok(())
    }

    /// Removes the items whose expiry lies strictly before `now`, and returns how
    /// many went, as a `u32`.
    pub fn remove_expired(&mut self, now: Timestamp) -> (r: u32)
        requires
            old(self)@.wf(),
        ensures
            final(self)@.wf(),
            final(self)@ == old(self)@.keeping(unexpired_items(old(self)@.items, now)),
            r == (old(self)@.items.len() - final(self)@.items.len()) as u32,
    {
        let ghost items0 = self.items@;
        let mut kept: Vec<ClipboardItem> = Vec::new();
        let mut k: usize = 0;
        while k < self.items.len()
            invariant
                self.items@ == items0,
                k <= items0.len(),
                kept@ == unexpired_items(items0.take(k as int), now),
                kept@.len() <= k,
            decreases self.items.len() - k,
        {
            proof {
                reveal(Seq::filter);
                assert(items0.take(k + 1).drop_last() =~= items0.take(k as int));
                assert(items0.take(k + 1).last() == items0[k as int]);
            }
            let gone = match self.items[k].expires_at {
                Some(e) => e.is_before(&now),
                None => false,
            };
            if !gone {
                kept.push(self.items[k].clone());
            }
            k = k + 1;
        }
        assert(items0.take(k as int) =~= items0);
        proof {
            lemma_filter_keeps_order(items0, |it: ClipboardItem| !expired(it, now));
        }
        let removed = self.items.len() - kept.len();
        self.items = kept;
        self.drop_dangling_links();
        removed as u32
    }

    /// Sets the collection of the item with the given id, if there is one.
    pub fn move_item_to_collection(&mut self, item_id: &str, collection_id: Option<&str>) -> (r:
        Result<(), DbError>)
        requires
            old(self)@.wf(),
        ensures
            r is Ok,
            final(self)@.wf(),
            exists|c: Option<String>|
                opt_text(c) == opt_str(collection_id) && final(self)@ == (DbModel {
                    items: items_moved(old(self)@.items, item_id@, c),
                    ..old(self)@
                }),
    {
        let ghost items0 = self.items@;
        let c: Option<String> = match collection_id {
            Some(s) => Some(s.to_owned()),
            None => None,
        };
        let ghost cg = c;
        match self.item_index(item_id) {
            Some(k) => {
                let mut it = self.items[k].clone();
                it.collection_id = c;
                self.items.set(k, it);
                proof {
                    assert forall|m: int| 0 <= m < items0.len() && m != k implies items0[m].id@
                        != item_id@ by {}
                }
            },
            None => {},
        }
        assert(self.items@ =~= items_moved(items0, item_id@, cg));
        proof {
            lemma_update_keeps_order(items0, self.items@);
        }
        assert(opt_text(cg) == opt_str(collection_id));
        assert(self@ == (DbModel { items: items_moved(items0, item_id@, cg), ..old(self)@ }));
        Ok(())
    }

    /// Sets the expiry of the item with the given id, if there is one.
    pub fn set_item_expiration(&mut self, item_id: &str, expires_at: Option<Timestamp>) -> (r:
        Result<(), DbError>)
        requires
            old(self)@.wf(),
        ensures
            r is Ok,
            final(self)@.wf(),
            final(self)@ == (DbModel {
                items: items_expiring(old(self)@.items, item_id@, expires_at),
                ..old(self)@
            }),
    {
        let ghost items0 = self.items@;
        match self.item_index(item_id) {
            Some(k) => {
                let mut it = self.items[k].clone();
                it.expires_at = expires_at;
                self.items.set(k, it);
                proof {
                    assert forall|m: int| 0 <= m < items0.len() && m != k implies items0[m].id@
                        != item_id@ by {}
                }
            },
            None => {},
        }
        assert(self.items@ =~= items_expiring(items0, item_id@, expires_at));
        proof {
            lemma_update_keeps_order(items0, self.items@);
        }
        Ok(())
    }
}

/// The longest `LIKE` pattern SQLite accepts, in bytes.
pub const LIKE_PATTERN_LIMIT: usize = 50000;

/// The search pattern `%search%` is longer than `LIKE` accepts.
pub open spec fn search_too_long(search: Option<Seq<char>>) -> bool {
    search matches Some(s) && encode_utf8(s).len() + 2 > LIKE_PATTERN_LIMIT
}

/// The item passes the collection filter of a listing.
pub open spec fn in_collection(it: ClipboardItem, collection: Option<Seq<char>>) -> bool {
    collection matches Some(c) ==> opt_text(it.collection_id) == Some(c)
}

/// Some item passes the collection filter, so that the search is tested on it.
pub open spec fn examined_any(items: Seq<ClipboardItem>, collection: Option<Seq<char>>) -> bool {
    exists|k: int| 0 <= k < items.len() && in_collection(#[trigger] items[k], collection)
}

/// The pattern vector for an optional search text.
pub open spec fn pattern_for(pat: Option<Vec<char>>, search: Option<Seq<char>>) -> bool {
    match search {
        Some(s) => pat matches Some(p) && p@ == search_pattern(s),
        None => pat is None,
    }
}

/// Whether `it` passes the filters of a listing.
fn item_matches(
    it: &ClipboardItem,
    pat: &Option<Vec<char>>,
    coll: &Option<String>,
    Ghost(search): Ghost<Option<Seq<char>>>,
) -> (r: bool)
    requires
        pattern_for(*pat, search),
    ensures
        r == matches_query(*it, search, opt_text(*coll)),
{
    let by_text = match pat {
        Some(p) => {
            let content = chars_of(it.content.as_str());
            if like_exec(p, &content) {
                true
            } else {
                let preview = chars_of(it.preview.as_str());
                like_exec(p, &preview)
            }
        },
        None => true,
    };
    let by_collection = match coll {
        Some(c) => match &it.collection_id {
            Some(x) => *x == *c,
            None => false,
        },
        None => true,
    };
    by_text && by_collection
}

/// The pattern `%search%` as characters.
fn search_pattern_exec(search: Option<&str>) -> (r: Option<Vec<char>>)
    ensures
        pattern_for(r, opt_str(search)),
{
    match search {
        Some(s) => {
            let body = chars_of(s);
            let mut p: Vec<char> = Vec::new();
            p.push('%');
            for k in 0..body.len()
                invariant
                    p@ == seq!['%'] + body@.take(k as int),
            {
                p.push(body[k]);
                assert(body@.take(k + 1) =~= body@.take(k as int).push(body@[k as int]));
                assert(p@ =~= seq!['%'] + body@.take(k + 1));
            }
            p.push('%');
            assert(body@.take(body@.len() as int) =~= body@);
            assert(p@ =~= search_pattern(s@));
            Some(p)
        },
        None => None,
    }
}

/// At most `limit` elements of `s` from position `offset` on.
fn page_of(s: &Vec<ClipboardItem>, offset: u32, limit: u32) -> (r: Vec<ClipboardItem>)
    ensures
        r@ == page(s@, offset as nat, limit as nat),
{
    let mut out: Vec<ClipboardItem> = Vec::new();
    let len = s.len();
    let start = offset as usize;
    if start >= len {
        assert(out@ =~= page(s@, offset as nat, limit as nat));
        return out;
    }
    let end: usize = if len - start <= limit as usize {
        len
    } else {
        start + limit as usize
    };
    let mut k: usize = start;
    while k < end
        invariant
            start <= k <= end <= len,
            len == s@.len(),
            out@ == s@.subrange(start as int, k as int),
        decreases end - k,
    {
        out.push(s[k].clone());
        assert(out@ =~= s@.subrange(start as int, k + 1));
        k = k + 1;
    }
    assert(out@ =~= page(s@, offset as nat, limit as nat));
    out
}

impl Database {
    /// One page of the history: the items that match `search` (a `LIKE '%search%'`
    /// on content or preview) and `collection_id`, pinned ones first, each group
    /// newest first, skipping `offset` and taking at most `limit`. A search text
    /// whose pattern exceeds the `LIKE` length limit fails as soon as an item
    /// of the collection (of any collection, without one) is there to test.
    pub fn get_items(
        &self,
        limit: u32,
        offset: u32,
        search: Option<&str>,
        collection_id: Option<&str>,
    ) -> (r: Result<Vec<ClipboardItem>, DbError>)
        requires
            self@.wf(),
        ensures
            search_too_long(opt_str(search)) && examined_any(
                self@.items,
                opt_str(collection_id),
            ) ==> r == Err::<Vec<ClipboardItem>, DbError>(DbError::PatternTooComplex),
            !(search_too_long(opt_str(search)) && examined_any(
                self@.items,
                opt_str(collection_id),
            )) ==> (r matches Ok(v) && v@ == page(
                listing(self@.items, opt_str(search), opt_str(collection_id)),
                offset as nat,
                limit as nat,
            )),
    {
        let coll: Option<String> = match collection_id {
            Some(c) => Some(c.to_owned()),
            None => None,
        };
        let too_long = match search {
            Some(s) => s.as_bytes().len() > LIKE_PATTERN_LIMIT - 2,
            None => false,
        };
        assert(too_long == search_too_long(opt_str(search)));
        if too_long {
            let mut k: usize = 0;
            while k < self.items.len()
                invariant
                    opt_text(coll) == opt_str(collection_id),
                    search_too_long(opt_str(search)),
                    k <= self.items@.len(),
                    forall|m: int|
                        0 <= m < k ==> !in_collection(
                            #[trigger] self.items@[m],
                            opt_str(collection_id),
                        ),
                decreases self.items.len() - k,
            {
                let inside = match &coll {
                    Some(c) => match &self.items[k].collection_id {
                        Some(x) => *x == *c,
                        None => false,
                    },
                    None => true,
                };
                if inside {
                    assert(in_collection(self.items@[k as int], opt_str(collection_id)));
                    return Err(DbError::PatternTooComplex);
                }
                k = k + 1;
            }
            assert(!examined_any(self@.items, opt_str(collection_id)));
        }
        let pat = search_pattern_exec(search);
        let ghost items0 = self.items@;
        let ghost q = opt_str(search);
        let ghost cq = opt_str(collection_id);
        assert(opt_text(coll) == cq);
        let mut pinned: Vec<ClipboardItem> = Vec::new();
        let mut rest: Vec<ClipboardItem> = Vec::new();
        let mut k: usize = 0;
        while k < self.items.len()
            invariant
                self.items@ == items0,
                k <= items0.len(),
                pattern_for(pat, q),
                opt_text(coll) == cq,
                pinned@ == selected(items0.take(k as int), q, cq, true),
                rest@ == selected(items0.take(k as int), q, cq, false),
            decreases self.items.len() - k,
        {
            proof {
                reveal(Seq::filter);
                assert(items0.take(k + 1).drop_last() =~= items0.take(k as int));
                assert(items0.take(k + 1).last() == items0[k as int]);
            }
            if item_matches(&self.items[k], &pat, &coll, Ghost(q)) {
                if self.items[k].is_pinned {
                    pinned.push(self.items[k].clone());
                } else {
                    rest.push(self.items[k].clone());
                }
            }
            k = k + 1;
        }
        assert(items0.take(k as int) =~= items0);
        pinned.append(&mut rest);
        assert(pinned@ == listing(items0, q, cq));
        Ok(page_of(&pinned, offset, limit))
    }

    /// The pinned items, newest first.
    pub fn get_pinned_items(&self) -> (r: Result<Vec<ClipboardItem>, DbError>)
        requires
            self@.wf(),
        ensures
            r matches Ok(v) && v@ == pinned_items(self@.items),
    {
        let ghost items0 = self.items@;
        let mut kept: Vec<ClipboardItem> = Vec::new();
        let mut k: usize = 0;
        while k < self.items.len()
            invariant
                self.items@ == items0,
                k <= items0.len(),
                kept@ == pinned_items(items0.take(k as int)),
            decreases self.items.len() - k,
        {
            proof {
                reveal(Seq::filter);
                assert(items0.take(k + 1).drop_last() =~= items0.take(k as int));
                assert(items0.take(k + 1).last() == items0[k as int]);
            }
            if self.items[k].is_pinned {
                kept.push(self.items[k].clone());
            }
            k = k + 1;
        }
        assert(items0.take(k as int) =~= items0);
        Ok(kept)
    }
}

proof fn lemma_collection_names_insert(cs: Seq<Collection>, p: int, c: Collection)
    requires
        0 <= p <= cs.len(),
    ensures
        collection_names(cs.insert(p, c)) == collection_names(cs).insert(p, c.name@),
{
    assert(collection_names(cs.insert(p, c)) =~= collection_names(cs).insert(p, c.name@));
}

proof fn lemma_collection_names_remove(cs: Seq<Collection>, k: int)
    requires
        0 <= k < cs.len(),
    ensures
        collection_names(cs.remove(k)) == collection_names(cs).remove(k),
{
    assert(collection_names(cs.remove(k)) =~= collection_names(cs).remove(k));
}

proof fn lemma_tag_names_insert(ts: Seq<Tag>, p: int, t: Tag)
    requires
        0 <= p <= ts.len(),
    ensures
        tag_names(ts.insert(p, t)) == tag_names(ts).insert(p, t.name@),
{
    assert(tag_names(ts.insert(p, t)) =~= tag_names(ts).insert(p, t.name@));
}

impl Database {
    /// The position of the collection with the given id.
    fn collection_index(&self, id: &str) -> (r: Option<usize>)
        ensures
            match r {
                Some(k) => k < self@.collections.len() && self@.collections[k as int].id@ == id@,
                None => forall|k: int|
                    0 <= k < self@.collections.len() ==> #[trigger] self@.collections[k].id@
                        != id@,
            },
    {
        let key = id.to_owned();
        let mut k: usize = 0;
        while k < self.collections.len()
            invariant
                key@ == id@,
                k <= self.collections@.len(),
                forall|m: int| 0 <= m < k ==> #[trigger] self.collections@[m].id@ != id@,
            decreases self.collections.len() - k,
        {
            if self.collections[k].id == key {
                return Some(k);
            }
            k = k + 1;
        }
        None
    }

    /// Where a collection with the given name goes.
    fn collection_slot(&self, name: &str) -> (p: usize)
        requires
            names_sorted(collection_names(self@.collections)),
        ensures
            p == name_pos(collection_names(self@.collections), name@),
            p <= self@.collections.len(),
            names_sorted(collection_names(self@.collections).insert(p as int, name@)),
    {
        let ghost ns = collection_names(self.collections@);
        let mut p: usize = 0;
        while p < self.collections.len() && !text_less(name, self.collections[p].name.as_str())
            invariant
                ns == collection_names(self.collections@),
                p <= self.collections@.len(),
                forall|m: int| 0 <= m < p ==> !text_lt(name@, #[trigger] ns[m]),
            decreases self.collections.len() - p,
        {
            p = p + 1;
        }
        proof {
            crate::text::lemma_name_insert(ns, name@, p as int);
        }
        p
    }

    /// Adds a collection at its place by name. Fails when the id is taken.
    pub fn create_collection(&mut self, collection: &Collection) -> (r: Result<(), DbError>)
        requires
            old(self)@.wf(),
        ensures
            final(self)@.wf(),
            find_collection(old(self)@.collections, collection.id@) is Some ==> r == Err::<
                (),
                DbError,
            >(DbError::CollectionIdTaken) && final(self)@ == old(self)@,
            find_collection(old(self)@.collections, collection.id@) is None ==> r is Ok
                && final(self)@ == (DbModel {
                collections: collections_with(old(self)@.collections, *collection),
                ..old(self)@
            }),
    {
        match self.collection_index(collection.id.as_str()) {
            Some(k) => {
                return Err(DbError::CollectionIdTaken);
            },
            None => {},
        }
        let p = self.collection_slot(collection.name.as_str());
        let ghost cs0 = self.collections@;
        proof {
            lemma_collection_names_insert(cs0, p as int, *collection);
        }
        self.collections.insert(p, collection.clone());
        assert forall|i: int, j: int|
            0 <= i < self.collections@.len() && 0 <= j < self.collections@.len() && i != j
                implies self.collections@[i].id@ != self.collections@[j].id@ by {
            let oi = if i < p { i } else { i - 1 };
            let oj = if j < p { j } else { j - 1 };
            if i != p {
                assert(self.collections@[i] == cs0[oi]);
            }
            if j != p {
                assert(self.collections@[j] == cs0[oj]);
            }
        }
        Ok(())
    }

    /// The collections, ordered by name.
    pub fn get_collections(&self) -> (r: Result<Vec<Collection>, DbError>)
        ensures
            r matches Ok(v) && v@ == self@.collections,
    {
        let mut out: Vec<Collection> = Vec::new();
        for k in 0..self.collections.len()
            invariant
                out@ == self.collections@.take(k as int),
        {
            out.push(self.collections[k].clone());
            assert(out@ =~= self.collections@.take(k + 1));
        }
        assert(self.collections@.take(self.collections@.len() as int) =~= self.collections@);
        Ok(out)
    }

    /// Removes the collection with the given id; the items in it leave it.
    pub fn delete_collection(&mut self, id: &str) -> (r: Result<(), DbError>)
        requires
            old(self)@.wf(),
        ensures
            r is Ok,
            final(self)@.wf(),
            final(self)@ == (DbModel {
                items: items_released(old(self)@.items, id@),
                collections: collections_without(old(self)@.collections, id@),
                ..old(self)@
            }),
    {
        let ghost items0 = self.items@;
        let ghost before_loop = self@;
        let key = id.to_owned();
        let mut k: usize = 0;
        while k < self.items.len()
            invariant
                key@ == id@,
                self.collections@ == before_loop.collections,
                self.tags@ == before_loop.tags,
                links_view(self.item_tags@) == before_loop.item_tags,
                k <= items0.len(),
                self.items@.len() == items0.len(),
                forall|m: int|
                    0 <= m < k ==> #[trigger] self.items@[m] == items_released(items0, id@)[m],
                forall|m: int| k <= m < items0.len() ==> #[trigger] self.items@[m] == items0[m],
            decreases items0.len() - k,
        {
            let inside = match &self.items[k].collection_id {
                Some(c) => *c == key,
                None => false,
            };
            if inside {
                let mut it = self.items[k].clone();
                it.collection_id = None;
                self.items.set(k, it);
            }
            k = k + 1;
        }
        assert(self.items@ =~= items_released(items0, id@));
        proof {
            lemma_update_keeps_order(items0, self.items@);
        }
        let ghost cs0 = self.collections@;
        match self.collection_index(id) {
            Some(c) => {
                proof {
                    crate::text::lemma_name_remove(collection_names(cs0), c as int);
                    lemma_collection_names_remove(cs0, c as int);
                }
                self.collections.remove(c);
                assert forall|i: int, j: int|
                    0 <= i < self.collections@.len() && 0 <= j < self.collections@.len() && i
                        != j implies self.collections@[i].id@ != self.collections@[j].id@ by {
                    let oi = if i < c { i } else { i + 1 };
                    let oj = if j < c { j } else { j + 1 };
                    assert(self.collections@[i] == cs0[oi]);
                    assert(self.collections@[j] == cs0[oj]);
                }
            },
            None => {},
        }
        Ok(())
    }

    /// Renames and recolours the collection with the given id, if there is one,
    /// moving it to its new place by name.
    pub fn update_collection(&mut self, id: &str, name: &str, color: &str) -> (r: Result<
        (),
        DbError,
    >)
        requires
            old(self)@.wf(),
        ensures
            r is Ok,
            final(self)@.wf(),
            final(self)@.items == old(self)@.items,
            final(self)@.tags == old(self)@.tags,
            final(self)@.item_tags == old(self)@.item_tags,
            find_collection(old(self)@.collections, id@) is None ==> final(self)@.collections
                == old(self)@.collections,
            find_collection(old(self)@.collections, id@) matches Some(k) ==> exists|
                n: String,
                c: String,
            |
                #![trigger n@, c@]
                n@ == name@ && c@ == color@ && final(self)@.collections == collections_with(
                    old(self)@.collections.remove(k),
                    Collection { name: n, color: c, ..old(self)@.collections[k] },
                ),
    {
        let ghost cs0 = self.collections@;
        match self.collection_index(id) {
            Some(k) => {
                proof {
                    crate::text::lemma_name_remove(collection_names(cs0), k as int);
                    lemma_collection_names_remove(cs0, k as int);
                }
                let mut c = self.collections.remove(k);
                let n = name.to_owned();
                let col = color.to_owned();
                let ghost ng = n;
                let ghost colg = col;
                c.name = n;
                c.color = col;
                let ghost cs1 = self.collections@;
                assert forall|i: int, j: int|
                    0 <= i < cs1.len() && 0 <= j < cs1.len() && i != j implies cs1[i].id@
                        != cs1[j].id@ by {
                    let oi = if i < k { i } else { i + 1 };
                    let oj = if j < k { j } else { j + 1 };
                    assert(cs1[i] == cs0[oi]);
                    assert(cs1[j] == cs0[oj]);
                }
                assert forall|i: int| 0 <= i < cs1.len() implies cs1[i].id@ != c.id@ by {
                    let oi = if i < k { i } else { i + 1 };
                    assert(cs1[i] == cs0[oi]);
                }
                let p = self.collection_slot(c.name.as_str());
                proof {
                    lemma_collection_names_insert(cs1, p as int, c);
                }
                let ghost cg = c;
                self.collections.insert(p, c);
                assert forall|i: int, j: int|
                    0 <= i < self.collections@.len() && 0 <= j < self.collections@.len() && i
                        != j implies self.collections@[i].id@ != self.collections@[j].id@ by {
                    let oi = if i < p { i } else { i - 1 };
                    let oj = if j < p { j } else { j - 1 };
                    if i != p {
                        assert(self.collections@[i] == cs1[oi]);
                    }
                    if j != p {
                        assert(self.collections@[j] == cs1[oj]);
                    }
                }
                assert(cg == Collection { name: ng, color: colg, ..cs0[k as int] });
                assert(self@.collections == collections_with(
                    cs0.remove(k as int),
                    Collection { name: ng, color: colg, ..cs0[k as int] },
                ));
            },
            None => {},
        }
        Ok(())
    }

    /// Adds a tag at its place by name, unless a tag with its id or its name
    /// exists already (then nothing changes).
    pub fn create_tag(&mut self, tag: &Tag) -> (r: Result<(), DbError>)
        requires
            old(self)@.wf(),
        ensures
            r is Ok,
            final(self)@.wf(),
            tag_clashes(old(self)@.tags, *tag) ==> final(self)@ == old(self)@,
            !tag_clashes(old(self)@.tags, *tag) ==> final(self)@ == (DbModel {
                tags: tags_with(old(self)@.tags, *tag),
                ..old(self)@
            }),
    {
        let ghost ts0 = self.tags@;
        let mut k: usize = 0;
        while k < self.tags.len()
            invariant
                ts0 == self.tags@,
                self@ == old(self)@,
                old(self)@.wf(),
                k <= ts0.len(),
                forall|m: int|
                    0 <= m < k ==> #[trigger] ts0[m].id@ != tag.id@ && ts0[m].name@ != tag.name@,
            decreases ts0.len() - k,
        {
            let same_id = self.tags[k].id == tag.id;
            let same_name = self.tags[k].name == tag.name;
            if same_id || same_name {
                assert(ts0[k as int].id@ == tag.id@ || ts0[k as int].name@ == tag.name@);
                assert(tag_clashes(ts0, *tag));
                return Ok(());
            }
            k = k + 1;
        }
        assert(!tag_clashes(ts0, *tag));
        let ghost ns = tag_names(ts0);
        let mut p: usize = 0;
        while p < self.tags.len() && !text_less(tag.name.as_str(), self.tags[p].name.as_str())
            invariant
                ts0 == self.tags@,
                ns == tag_names(ts0),
                p <= ts0.len(),
                forall|m: int| 0 <= m < p ==> !text_lt(tag.name@, #[trigger] ns[m]),
            decreases ts0.len() - p,
        {
            p = p + 1;
        }
        proof {
            crate::text::lemma_name_insert(ns, tag.name@, p as int);
            lemma_tag_names_insert(ts0, p as int, *tag);
        }
        self.tags.insert(p, tag.clone());
        proof {
            let links = self@.item_tags;
            assert forall|k: int| 0 <= k < links.len() implies tag_ids(self.tags@).contains(
                #[trigger] links[k].1,
            ) by {
                lemma_tag_ids_insert(ts0, p as int, *tag, links[k].1);
            }
        }
        assert forall|i: int, j: int|
            0 <= i < self.tags@.len() && 0 <= j < self.tags@.len() && i != j implies
            self.tags@[i].id@ != self.tags@[j].id@ && self.tags@[i].name@ != self.tags@[j].name@ by {
            let oi = if i < p { i } else { i - 1 };
            let oj = if j < p { j } else { j - 1 };
            if i != p {
                assert(self.tags@[i] == ts0[oi]);
            }
            if j != p {
                assert(self.tags@[j] == ts0[oj]);
            }
        }
        Ok(())
    }

    /// The tags, ordered by name.
    pub fn get_tags(&self) -> (r: Result<Vec<Tag>, DbError>)
        ensures
            r matches Ok(v) && v@ == self@.tags,
    {
        let mut out: Vec<Tag> = Vec::new();
        for k in 0..self.tags.len()
            invariant
                out@ == self.tags@.take(k as int),
        {
            out.push(self.tags[k].clone());
            assert(out@ =~= self.tags@.take(k + 1));
        }
        assert(self.tags@.take(self.tags@.len() as int) =~= self.tags@);
        Ok(out)
    }

    /// The position of the link between the item and the tag.
    fn link_index(&self, item_id: &str, tag_id: &str) -> (r: Option<usize>)
        ensures
            match r {
                Some(k) => k < self@.item_tags.len() && self@.item_tags[k as int] == (
                    item_id@,
                    tag_id@,
                ),
                None => !self@.item_tags.contains((item_id@, tag_id@)),
            },
    {
        let a = item_id.to_owned();
        let b = tag_id.to_owned();
        let mut k: usize = 0;
        while k < self.item_tags.len()
            invariant
                a@ == item_id@,
                b@ == tag_id@,
                k <= self.item_tags@.len(),
                forall|m: int|
                    0 <= m < k ==> #[trigger] links_view(self.item_tags@)[m] != (item_id@, tag_id@),
            decreases self.item_tags.len() - k,
        {
            if self.item_tags[k].0 == a && self.item_tags[k].1 == b {
                return Some(k);
            }
            k = k + 1;
        }
        None
    }

    /// Whether a tag with the id is stored.
    fn has_tag(&self, id: &str) -> (r: bool)
        ensures
            r == tag_ids(self@.tags).contains(id@),
    {
        let key = id.to_owned();
        let mut k: usize = 0;
        while k < self.tags.len()
            invariant
                key@ == id@,
                k <= self.tags@.len(),
                forall|m: int| 0 <= m < k ==> #[trigger] self.tags@[m].id@ != id@,
            decreases self.tags.len() - k,
        {
            if self.tags[k].id == key {
                assert(tag_ids(self@.tags)[k as int] == id@);
                return true;
            }
            k = k + 1;
        }
        assert forall|j: int| 0 <= j < tag_ids(self@.tags).len() implies tag_ids(self@.tags)[j]
            != id@ by {
            assert(tag_ids(self@.tags)[j] == self@.tags[j].id@);
        }
        false
    }

    /// Links the tag to the item, unless they are linked already. Fails,
    /// changing nothing, when the item or the tag is not stored.
    pub fn add_tag_to_item(&mut self, item_id: &str, tag_id: &str) -> (r: Result<(), DbError>)
        requires
            old(self)@.wf(),
        ensures
            final(self)@.wf(),
            item_ids(old(self)@.items).contains(item_id@) && tag_ids(old(self)@.tags).contains(
                tag_id@,
            ) ==> r is Ok && final(self)@ == (DbModel {
                item_tags: links_with(old(self)@.item_tags, item_id@, tag_id@),
                ..old(self)@
            }),
            !(item_ids(old(self)@.items).contains(item_id@) && tag_ids(old(self)@.tags).contains(
                tag_id@,
            )) ==> r == Err::<(), DbError>(DbError::ForeignKeyFailed) && final(self)@ == old(
                self,
            )@,
    {
        let item_stored = match self.item_index(item_id) {
            Some(k) => {
                assert(item_ids(self@.items)[k as int] == item_id@);
                true
            },
            None => {
                assert forall|j: int| 0 <= j < item_ids(self@.items).len() implies item_ids(
                    self@.items,
                )[j] != item_id@ by {
                    assert(item_ids(self@.items)[j] == self@.items[j].id@);
                }
                false
            },
        };
        if !item_stored || !self.has_tag(tag_id) {
            return Err(DbError::ForeignKeyFailed);
        }
        match self.link_index(item_id, tag_id) {
            Some(k) => {},
            None => {
                let ghost l0 = self.item_tags@;
                self.item_tags.push((item_id.to_owned(), tag_id.to_owned()));
                assert(links_view(self.item_tags@) =~= links_view(l0).push((item_id@, tag_id@)));
            },
        }
        Ok(())
    }

    /// Removes the link between the item and the tag, if there is one.
    pub fn remove_tag_from_item(&mut self, item_id: &str, tag_id: &str) -> (r: Result<
        (),
        DbError,
    >)
        requires
            old(self)@.wf(),
        ensures
            r is Ok,
            final(self)@.wf(),
            final(self)@ == (DbModel {
                item_tags: links_without(old(self)@.item_tags, item_id@, tag_id@),
                ..old(self)@
            }),
    {
        match self.link_index(item_id, tag_id) {
            Some(k) => {
                let ghost l0 = links_view(self.item_tags@);
                proof {
                    assert(l0.contains((item_id@, tag_id@)));
                    let j = l0.index_of((item_id@, tag_id@));
                    assert(l0[j] == l0[k as int]);
                }
                self.item_tags.remove(k);
                assert(links_view(self.item_tags@) =~= l0.remove(k as int));
                assert forall|i: int, j: int|
                    0 <= i < l0.len() - 1 && 0 <= j < l0.len() - 1 && i != j implies l0.remove(
                        k as int,
                    )[i] != l0.remove(k as int)[j] by {
                    let oi = if i < k { i } else { i + 1 };
                    let oj = if j < k { j } else { j + 1 };
                    assert(l0.remove(k as int)[i] == l0[oi]);
                    assert(l0.remove(k as int)[j] == l0[oj]);
                }
            },
            None => {},
        }
        Ok(())
    }

    /// The tags linked to the item, ordered by name.
    pub fn get_item_tags(&self, item_id: &str) -> (r: Result<Vec<Tag>, DbError>)
        ensures
            r matches Ok(v) && v@ == tags_of_item(self@.tags, self@.item_tags, item_id@),
    {
        let ghost ts0 = self.tags@;
        let ghost links = self@.item_tags;
        let mut out: Vec<Tag> = Vec::new();
        let mut k: usize = 0;
        while k < self.tags.len()
            invariant
                ts0 == self.tags@,
                links == self@.item_tags,
                k <= ts0.len(),
                out@ == tags_of_item(ts0.take(k as int), links, item_id@),
            decreases ts0.len() - k,
        {
            proof {
                reveal(Seq::filter);
                assert(ts0.take(k + 1).drop_last() =~= ts0.take(k as int));
                assert(ts0.take(k + 1).last() == ts0[k as int]);
            }
            let linked = match self.link_index(item_id, self.tags[k].id.as_str()) {
                Some(_) => true,
                None => false,
            };
            if linked {
                out.push(self.tags[k].clone());
            }
            k = k + 1;
        }
        assert(ts0.take(k as int) =~= ts0);
        Ok(out)
    }
}

impl Database {
    /// Removes the items that have expired by now, and returns how many went.
    pub fn cleanup_expired(&mut self) -> (r: Result<u32, DbError>)
        requires
            old(self)@.wf(),
        ensures
            final(self)@.wf(),
            exists|now: Timestamp|
                #![trigger unexpired_items(old(self)@.items, now)]
                final(self)@ == old(self)@.keeping(unexpired_items(old(self)@.items, now)) && r == Ok::<u32, DbError>(
                    (old(self)@.items.len() - final(self)@.items.len()) as u32,
                ),
    {
        let now = now_utc();
        let n = self.remove_expired(now);
        Ok(n)
    }
}

impl Database {
    /// Every link between an item and a tag, as (item id, tag id).
    pub fn get_links(&self) -> (r: Vec<(String, String)>)
        ensures
            links_view(r@) == self@.item_tags,
    {
        let mut out: Vec<(String, String)> = Vec::new();
        for k in 0..self.item_tags.len()
            invariant
                links_view(out@) == links_view(self.item_tags@).take(k as int),
        {
            let pair = (self.item_tags[k].0.clone(), self.item_tags[k].1.clone());
            assert(pair == self.item_tags@[k as int]);
            let ghost before_push = out@;
            out.push(pair);
            assert(links_view(out@) =~= links_view(before_push).push(
                links_view(self.item_tags@)[k as int],
            ));
            assert(links_view(out@) =~= links_view(self.item_tags@).take(k + 1));
        }
        assert(links_view(self.item_tags@).take(self.item_tags@.len() as int) =~= links_view(
            self.item_tags@,
        ));
        out
    }
}

// ---------------------------------------------------------------------------
// Properties of the store
// ---------------------------------------------------------------------------

/// Looking an id up among the items a filter keeps finds the item the full
/// history has under that id, if the filter keeps it.
pub proof fn lemma_lookup_filtered(
    items: Seq<ClipboardItem>,
    pred: spec_fn(ClipboardItem) -> bool,
    id: Seq<char>,
)
    requires
        unique_item_ids(items),
        newest_first(items),
    ensures
        find_item(items.filter(pred), id) == match find_item(items, id) {
            Some(it) => if pred(it) {
                Some(it)
            } else {
                None
            },
            None => None,
        },
{
    broadcast use Seq::lemma_filter_pred, Seq::lemma_filter_contains;

    lemma_filter_keeps_order(items, pred);
    let f = items.filter(pred);
    if exists|k: int| 0 <= k < items.len() && items[k].id@ == id {
        let k = choose|k: int| 0 <= k < items.len() && items[k].id@ == id;
        lemma_find_item_at(items, id, k);
        let it = items[k];
        if pred(it) {
            assert(f.contains(it));
            let j = choose|j: int| 0 <= j < f.len() && f[j] == it;
            lemma_find_item_at(f, id, j);
        } else {
            assert forall|j: int| 0 <= j < f.len() implies f[j].id@ != id by {
                if f[j].id@ == id {
                    assert(f.contains(f[j]));
                    assert(items.contains(f[j]));
                    let m = choose|m: int| 0 <= m < items.len() && items[m] == f[j];
                    assert(m == k);
                    assert(pred(f[j]));
                }
            }
        }
    } else {
        assert forall|j: int| 0 <= j < f.len() implies f[j].id@ != id by {
            assert(f.contains(f[j]));
            assert(items.contains(f[j]));
        }
    }
}

/// A filter of a sequence without duplicates has none.
proof fn lemma_filter_no_duplicates<A>(s: Seq<A>, pred: spec_fn(A) -> bool)
    requires
        s.no_duplicates(),
    ensures
        s.filter(pred).no_duplicates(),
    decreases s.len(),
{
    reveal(Seq::filter);
    if s.len() > 0 {
        let d = s.drop_last();
        assert(d.no_duplicates());
        lemma_filter_no_duplicates(d, pred);
        if pred(s.last()) {
            let f = d.filter(pred);
            if f.contains(s.last()) {
                d.lemma_filter_contains_rev(pred, s.last());
                let m = choose|m: int| 0 <= m < d.len() && d[m] == s.last();
                assert(s[m] == s[s.len() - 1]);
            }
            let g = f.push(s.last());
            assert forall|i: int, j: int| 0 <= i < g.len() && 0 <= j < g.len() && i != j implies g[i]
                != g[j] by {
                if i == f.len() {
                    assert(f.contains(g[j]));
                } else if j == f.len() {
                    assert(f.contains(g[i]));
                }
            }
        }
    }
}

/// Adding an item keeps every id that was stored.
proof fn lemma_item_ids_insert(items: Seq<ClipboardItem>, p: int, item: ClipboardItem, x: Seq<char>)
    requires
        0 <= p <= items.len(),
        item_ids(items).contains(x),
    ensures
        item_ids(items.insert(p, item)).contains(x),
{
    let m = choose|m: int| 0 <= m < item_ids(items).len() && item_ids(items)[m] == x;
    let n = if m < p { m } else { m + 1 };
    assert(items.insert(p, item)[n] == items[m]);
    assert(item_ids(items.insert(p, item))[n] == x);
}

/// Adding a tag keeps every tag id that was stored.
proof fn lemma_tag_ids_insert(ts: Seq<Tag>, p: int, t: Tag, x: Seq<char>)
    requires
        0 <= p <= ts.len(),
        tag_ids(ts).contains(x),
    ensures
        tag_ids(ts.insert(p, t)).contains(x),
{
    let m = choose|m: int| 0 <= m < tag_ids(ts).len() && tag_ids(ts)[m] == x;
    let n = if m < p { m } else { m + 1 };
    assert(ts.insert(p, t)[n] == ts[m]);
    assert(tag_ids(ts.insert(p, t))[n] == x);
}

/// After an item is added, looking up its id finds it, and every other id
/// finds what it found before.
pub proof fn lemma_insert_then_lookup(m: DbModel, item: ClipboardItem, other: Seq<char>)
    requires
        m.wf(),
        m.lookup(item.id@) is None,
    ensures
        m.with_item(item).lookup(item.id@) == Some(item),
        other != item.id@ ==> m.with_item(item).lookup(other) == m.lookup(other),
{
    let p = insert_pos(m.items, item.created_at) as int;
    lemma_insert_pos_bound(m.items, item.created_at);
    let n = m.items.insert(p, item);
    assert forall|k: int| 0 <= k < m.items.len() implies m.items[k].id@ != item.id@ by {}
    assert(unique_item_ids(n)) by {
        assert forall|i: int, j: int|
            0 <= i < n.len() && 0 <= j < n.len() && i != j implies n[i].id@ != n[j].id@ by {
            let oi = if i < p { i } else { i - 1 };
            let oj = if j < p { j } else { j - 1 };
            if i != p {
                assert(n[i] == m.items[oi]);
            }
            if j != p {
                assert(n[j] == m.items[oj]);
            }
        }
    }
    lemma_find_item_at(n, item.id@, p);
    if other != item.id@ {
        if exists|k: int| 0 <= k < m.items.len() && m.items[k].id@ == other {
            let k = choose|k: int| 0 <= k < m.items.len() && m.items[k].id@ == other;
            lemma_find_item_at(m.items, other, k);
            let nk = if k < p { k } else { k + 1 };
            assert(n[nk] == m.items[k]);
            lemma_find_item_at(n, other, nk);
        } else {
            assert forall|j: int| 0 <= j < n.len() implies n[j].id@ != other by {
                if j != p {
                    let oj = if j < p { j } else { j - 1 };
                    assert(n[j] == m.items[oj]);
                }
            }
        }
    }
}

proof fn lemma_insert_pos_bound(items: Seq<ClipboardItem>, t: Timestamp)
    ensures
        insert_pos(items, t) <= items.len(),
    decreases items.len(),
{
    if items.len() > 0 {
        lemma_insert_pos_bound(items.drop_first(), t);
    }
}

/// After the item with an id is deleted, that id finds nothing, and every other
/// id finds what it found before.
pub proof fn lemma_delete_then_lookup(m: DbModel, id: Seq<char>, other: Seq<char>)
    requires
        m.wf(),
    ensures
        find_item(items_without(m.items, id), id) is None,
        other != id ==> find_item(items_without(m.items, id), other) == m.lookup(other),
{
    lemma_lookup_filtered(m.items, id_differs(id), id);
    lemma_lookup_filtered(m.items, id_differs(id), other);
    if exists|k: int| 0 <= k < m.items.len() && m.items[k].id@ == id {
        let k = choose|k: int| 0 <= k < m.items.len() && m.items[k].id@ == id;
        lemma_find_item_at(m.items, id, k);
    }
    if exists|k: int| 0 <= k < m.items.len() && m.items[k].id@ == other {
        let k = choose|k: int| 0 <= k < m.items.len() && m.items[k].id@ == other;
        lemma_find_item_at(m.items, other, k);
    }
}

/// Once an item is no longer in the history, no tag is listed for it: its
/// links went with it.
pub proof fn lemma_removed_item_untagged(m: DbModel, items: Seq<ClipboardItem>, id: Seq<char>)
    requires
        !item_ids(items).contains(id),
    ensures
        tags_of_item(m.tags, m.keeping(items).item_tags, id) == Seq::<Tag>::empty(),
{
    broadcast use Seq::lemma_filter_pred;

    let links = m.keeping(items).item_tags;
    let f = tags_of_item(m.tags, links, id);
    if f.len() > 0 {
        let t = f[0];
        assert(links.contains((id, t.id@)));
        let j = choose|j: int| 0 <= j < links.len() && links[j] == (id, t.id@);
        assert(item_ids(items).contains(links[j].0));
    }
    assert(f =~= Seq::<Tag>::empty());
}

/// After an item is deleted, no tag is listed for it.
pub proof fn lemma_deleted_item_untagged(m: DbModel, id: Seq<char>)
    ensures
        tags_of_item(m.tags, m.keeping(items_without(m.items, id)).item_tags, id) == Seq::<
            Tag,
        >::empty(),
{
    broadcast use Seq::lemma_filter_pred;

    let kept = items_without(m.items, id);
    assert forall|j: int| 0 <= j < item_ids(kept).len() implies item_ids(kept)[j] != id by {
        assert(id_differs(id)(kept[j]));
    }
    lemma_removed_item_untagged(m, kept, id);
}

/// Clearing the history keeps exactly the pinned items: an id finds its item
/// afterwards if and only if that item is pinned.
pub proof fn lemma_clear_keeps_pinned(m: DbModel, id: Seq<char>)
    requires
        m.wf(),
    ensures
        find_item(pinned_items(m.items), id) == match m.lookup(id) {
            Some(it) => if it.is_pinned {
                Some(it)
            } else {
                None
            },
            None => None,
        },
{
    lemma_lookup_filtered(m.items, is_pinned_item(), id);
}

/// Pinning or unpinning changes only the flag of the item with that id.
pub proof fn lemma_pin_then_lookup(m: DbModel, id: Seq<char>, pinned: bool, other: Seq<char>)
    requires
        m.wf(),
    ensures
        find_item(items_pinned(m.items, id, pinned), id) == match m.lookup(id) {
            Some(it) => Some(ClipboardItem { is_pinned: pinned, ..it }),
            None => None,
        },
        other != id ==> find_item(items_pinned(m.items, id, pinned), other) == m.lookup(other),
{
    let n = items_pinned(m.items, id, pinned);
    lemma_update_keeps_order(m.items, n);
    if exists|k: int| 0 <= k < m.items.len() && m.items[k].id@ == id {
        let k = choose|k: int| 0 <= k < m.items.len() && m.items[k].id@ == id;
        lemma_find_item_at(m.items, id, k);
        lemma_find_item_at(n, id, k);
    } else {
        assert forall|j: int| 0 <= j < n.len() implies n[j].id@ != id by {}
    }
    if other != id {
        if exists|k: int| 0 <= k < m.items.len() && m.items[k].id@ == other {
            let k = choose|k: int| 0 <= k < m.items.len() && m.items[k].id@ == other;
            lemma_find_item_at(m.items, other, k);
            lemma_find_item_at(n, other, k);
        } else {
            assert forall|j: int| 0 <= j < n.len() implies n[j].id@ != other by {}
        }
    }
}

/// Cutting the history back keeps every pinned item, in order, and
/// `min(limit, unpinned)` unpinned ones.
pub proof fn lemma_limit_counts(items: Seq<ClipboardItem>, limit: nat)
    ensures
        pinned_items(within_limit(items, limit)) == pinned_items(items),
        unpinned_count(within_limit(items, limit)) == if unpinned_count(items) < limit {
            unpinned_count(items)
        } else {
            limit
        },
    decreases items.len(),
{
    reveal(Seq::filter);
    if items.len() > 0 {
        let d = items.drop_last();
        lemma_limit_counts(d, limit);
        let kept = within_limit(d, limit);
        if items.last().is_pinned || unpinned_count(d) < limit {
            assert(kept.push(items.last()).drop_last() == kept);
        }
    }
}

/// Every item on a page of a listing matches the query, and a page holds at
/// most `limit` items.
pub proof fn lemma_page_matches(
    items: Seq<ClipboardItem>,
    search: Option<Seq<char>>,
    collection: Option<Seq<char>>,
    offset: nat,
    limit: nat,
)
    ensures
        page(listing(items, search, collection), offset, limit).len() <= limit,
        forall|k: int|
            0 <= k < page(listing(items, search, collection), offset, limit).len()
                ==> matches_query(
                #[trigger] page(listing(items, search, collection), offset, limit)[k],
                search,
                collection,
            ),
{
    broadcast use Seq::lemma_filter_pred;

    let a = selected(items, search, collection, true);
    let b = selected(items, search, collection, false);
    let l = listing(items, search, collection);
    assert forall|k: int| 0 <= k < l.len() implies matches_query(l[k], search, collection) by {
        if k < a.len() {
            assert(l[k] == a[k]);
        } else {
            assert(l[k] == b[k - a.len()]);
        }
    }
    let pg = page(l, offset, limit);
    assert forall|k: int| 0 <= k < pg.len() implies matches_query(pg[k], search, collection) by {
        assert(pg[k] == l[offset + k]);
    }
}

/// Listing under a collection gives the items of that collection only: every
/// item listed, on any page, is a stored item whose collection id is the one
/// asked for; and with no search text, every stored item of that collection is
/// listed.
pub proof fn lemma_collection_listing(
    items: Seq<ClipboardItem>,
    search: Option<Seq<char>>,
    c: Seq<char>,
    offset: nat,
    limit: nat,
)
    ensures
        forall|k: int|
            0 <= k < page(listing(items, search, Some(c)), offset, limit).len() ==> opt_text(
                #[trigger] page(listing(items, search, Some(c)), offset, limit)[k].collection_id,
            ) == Some(c),
        forall|it: ClipboardItem| #[trigger]
            listing(items, search, Some(c)).contains(it) ==> items.contains(it) && opt_text(
                it.collection_id,
            ) == Some(c),
        forall|it: ClipboardItem|
            items.contains(it) && opt_text(it.collection_id) == Some(c) ==> #[trigger] listing(
                items,
                None,
                Some(c),
            ).contains(it),
{
    broadcast use Seq::lemma_filter_pred, Seq::lemma_filter_contains, Seq::lemma_filter_contains_rev;

    let a = selected(items, search, Some(c), true);
    let b = selected(items, search, Some(c), false);
    let l = listing(items, search, Some(c));
    assert forall|k: int| 0 <= k < l.len() implies opt_text(l[k].collection_id) == Some(c)
        && items.contains(l[k]) by {
        if k < a.len() {
            assert(l[k] == a[k]);
            assert(a.contains(a[k]));
        } else {
            assert(l[k] == b[k - a.len()]);
            assert(b.contains(b[k - a.len()]));
        }
    }
    assert forall|it: ClipboardItem| l.contains(it) implies items.contains(it) && opt_text(
        it.collection_id,
    ) == Some(c) by {
        let k = choose|k: int| 0 <= k < l.len() && l[k] == it;
    }
    let pg = page(l, offset, limit);
    assert forall|k: int| 0 <= k < pg.len() implies opt_text(pg[k].collection_id) == Some(c) by {
        assert(pg[k] == l[offset + k]);
    }
    let a0 = selected(items, None, Some(c), true);
    let b0 = selected(items, None, Some(c), false);
    let l0 = listing(items, None, Some(c));
    assert forall|it: ClipboardItem|
        items.contains(it) && opt_text(it.collection_id) == Some(c) implies l0.contains(it) by {
        let j = choose|j: int| 0 <= j < items.len() && items[j] == it;
        if it.is_pinned {
            assert(a0.contains(items[j]));
            let m = choose|m: int| 0 <= m < a0.len() && a0[m] == it;
            assert(l0[m] == it);
        } else {
            assert(b0.contains(items[j]));
            let m = choose|m: int| 0 <= m < b0.len() && b0[m] == it;
            assert(l0[a0.len() + m] == it);
        }
    }
}

/// After a collection is deleted no item is in it and it is gone.
pub proof fn lemma_deleted_collection_gone(m: DbModel, id: Seq<char>)
    requires
        m.wf(),
    ensures
        forall|k: int|
            0 <= k < m.items.len() ==> opt_text(
                #[trigger] items_released(m.items, id)[k].collection_id,
            ) != Some(id),
        find_collection(collections_without(m.collections, id), id) is None,
{
    let cs = m.collections;
    if exists|k: int| 0 <= k < cs.len() && cs[k].id@ == id {
        let k = choose|k: int| 0 <= k < cs.len() && cs[k].id@ == id;
        let r = cs.remove(k);
        assert forall|j: int| 0 <= j < r.len() implies r[j].id@ != id by {
            let oj = if j < k { j } else { j + 1 };
            assert(r[j] == cs[oj]);
        }
    }
}

/// Linking a tag that exists to an item makes it one of the item's tags.
pub proof fn lemma_linked_tag_listed(m: DbModel, item: Seq<char>, k: int)
    requires
        0 <= k < m.tags.len(),
    ensures
        tags_of_item(m.tags, links_with(m.item_tags, item, m.tags[k].id@), item).contains(
            m.tags[k],
        ),
{
    broadcast use Seq::lemma_filter_contains;

    let links = links_with(m.item_tags, item, m.tags[k].id@);
    if !m.item_tags.contains((item, m.tags[k].id@)) {
        assert(links[links.len() - 1] == (item, m.tags[k].id@));
    }
    assert(links.contains((item, m.tags[k].id@)));
}

/// After a link is removed it is not there any more.
pub proof fn lemma_unlinked(m: DbModel, item: Seq<char>, tag: Seq<char>)
    requires
        m.wf(),
    ensures
        !links_without(m.item_tags, item, tag).contains((item, tag)),
{
    let l = m.item_tags;
    if l.contains((item, tag)) {
        let k = l.index_of((item, tag));
        let r = l.remove(k);
        assert forall|j: int| 0 <= j < r.len() implies r[j] != (item, tag) by {
            let oj = if j < k { j } else { j + 1 };
            assert(r[j] == l[oj]);
        }
    }
}

/// Once a tag is stored, another tag with the same name is refused.
pub proof fn lemma_tag_name_taken(ts: Seq<Tag>, t: Tag, u: Tag)
    requires
        t.name@ == u.name@,
    ensures
        tag_clashes(tags_with(ts, t), u),
{
    lemma_name_pos_bound(tag_names(ts), t.name@);
    let p = name_pos(tag_names(ts), t.name@) as int;
    assert(tags_with(ts, t)[p] == t);
}

proof fn lemma_name_pos_bound(ns: Seq<Seq<char>>, n: Seq<char>)
    ensures
        name_pos(ns, n) <= ns.len(),
    decreases ns.len(),
{
    if ns.len() > 0 {
        lemma_name_pos_bound(ns.drop_first(), n);
    }
}

} // verus!
