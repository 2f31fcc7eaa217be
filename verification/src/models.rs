//! Plain records of informants and news items.

use vstd::prelude::*;

verus! {

/// Dates and times without time zone, carried through opaquely.
#[verifier::external_type_specification]
#[verifier::external_body]
pub struct ExNaiveDateTime(chrono::NaiveDateTime);

/// JSON values, carried through opaquely.
#[verifier::external_type_specification]
#[verifier::external_body]
pub struct ExJsonValue(serde_json::Value);

/// An informant record.
#[derive(Debug)]
pub struct Informant {
    pub id: i32,
    pub name: String,
    pub params: serde_json::Value,
    pub created_at: chrono::NaiveDateTime,
    pub updated_at: chrono::NaiveDateTime,
}

impl Informant {
    /// An informant record of the given fields.
    pub fn new(
        id: i32,
        name: String,
        params: serde_json::Value,
        created_at: chrono::NaiveDateTime,
        updated_at: chrono::NaiveDateTime,
    ) -> (r: Informant)
        ensures
            r.id == id,
            r.name == name,
            r.params == params,
            r.created_at == created_at,
            r.updated_at == updated_at,
    {
        Informant { id, name, params, created_at, updated_at }
    }
}

/// A news item record.
#[derive(Debug)]
pub struct NewsItem {
    pub id: i32,
    pub informant_id: i32,
    pub provided_id: String,
    pub index: String,
    pub title: String,
    pub content: String,
    pub created_at: chrono::NaiveDateTime,
    pub updated_at: chrono::NaiveDateTime,
}

impl NewsItem {
    /// A news item record of the given fields.
    pub fn new(
        id: i32,
        informant_id: i32,
        provided_id: String,
        index: String,
        title: String,
        content: String,
        created_at: chrono::NaiveDateTime,
        updated_at: chrono::NaiveDateTime,
    ) -> (r: NewsItem)
        ensures
            r.id == id,
            r.informant_id == informant_id,
            r.provided_id == provided_id,
            r.index == index,
            r.title == title,
            r.content == content,
            r.created_at == created_at,
            r.updated_at == updated_at,
    {
        NewsItem { id, informant_id, provided_id, index, title, content, created_at, updated_at }
    }
}

} // verus!
