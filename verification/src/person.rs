//! People: a name and an age, looked up and updated by name.
use vstd::prelude::*;
use vstd::string::*;

verus! {

/// A person record as stored in the `person` table.
pub struct Person {
    pub name: String,
    pub age: String,
}

/// The query that reads the people with a given name: the name is placed
/// between single quotes as it is.
pub open spec fn select_person_text(name: Seq<char>) -> Seq<char> {
    "SELECT * FROM person WHERE name = '"@ + name + "'"@
}

/// The query that replaces the content of the people with a given name.
pub open spec fn update_person_text(name: Seq<char>) -> Seq<char> {
    "UPDATE person CONTENT $content WHERE name = '"@ + name + "'"@
}

/// Builds the query that reads the people with a given name.
pub fn select_person_query(name: &str) -> (q: String)
    ensures
        q@ == select_person_text(name@),
{
    let mut q = String::from_str("SELECT * FROM person WHERE name = '");
    q.append(name);
    q.append("'");
    q
}

/// Builds the query that replaces the content of the people with a name.
pub fn update_person_query(name: &str) -> (q: String)
    ensures
        q@ == update_person_text(name@),
{
    let mut q = String::from_str("UPDATE person CONTENT $content WHERE name = '");
    q.append(name);
    q.append("'");
    q
}

} // verus!
