//! Creating collections and tags with fresh ids.
use vstd::prelude::*;
use crate::database::{
    collections_with, find_collection, tag_clashes, tags_with, Collection, Database, DbModel, Tag,
};
use crate::platform::{new_uuid, now_utc};

verus! {

/// Creates a collection with a fresh id and the current time, and stores it.
pub fn create_collection(db: &mut Database, name: String, color: String) -> (r: Result<
    Collection,
    String,
>)
    requires
        old(db)@.wf(),
    ensures
        final(db)@.wf(),
        match r {
            Ok(c) => {
                &&& c.name@ == name@
                &&& c.color@ == color@
                &&& find_collection(old(db)@.collections, c.id@) is None
                &&& final(db)@ == (DbModel {
                    collections: collections_with(old(db)@.collections, c),
                    ..old(db)@
                })
            },
            Err(e) => {
                &&& e@ == "UNIQUE constraint failed: collections.id"@
                &&& exists|id: Seq<char>| #[trigger] find_collection(old(db)@.collections, id) is Some
                &&& final(db)@ == old(db)@
            },
        },
        old(db)@.collections.len() == 0 ==> r is Ok,
{
    let collection = Collection { id: new_uuid(), name, color, created_at: now_utc() };
    let ghost idv = collection.id@;
    match db.create_collection(&collection) {
        Ok(()) => Ok(collection),
        Err(e) => {
            assert(find_collection(old(db)@.collections, idv) is Some);
            Err(e.message())
        },
    }
}

/// Creates a tag with a fresh id; nothing is stored when a tag with that id or
/// that name exists already, but the new tag is returned either way.
pub fn create_tag(db: &mut Database, name: String) -> (r: Result<Tag, String>)
    requires
        old(db)@.wf(),
    ensures
        final(db)@.wf(),
        match r {
            Ok(t) => {
                &&& t.name@ == name@
                &&& tag_clashes(old(db)@.tags, t) ==> final(db)@ == old(db)@
                &&& !tag_clashes(old(db)@.tags, t) ==> final(db)@ == (DbModel {
                    tags: tags_with(old(db)@.tags, t),
                    ..old(db)@
                })
            },
            Err(_) => false,
        },
{
    let tag = Tag { id: new_uuid(), name };
    match db.create_tag(&tag) {
        Ok(()) => Ok(tag),
        Err(e) => Err(e.message()),
    }
}

} // verus!
