//! The unit of business data carried through the pipeline.
use vstd::prelude::*;

verus! {

/// Mathematical model of a domain record: every attribute as a plain value.
pub ghost struct RecModel {
    pub id: Seq<char>,
    pub crm_id: Seq<char>,
    pub is_active: bool,
    pub age: int,
    pub name: Seq<char>,
    pub company: Seq<char>,
    pub gender: Seq<char>,
    pub email: Seq<char>,
}

/// A fully decoded domain record.  A record is only ever materialized whole:
/// decoding either yields every attribute, correctly typed, or fails.
#[derive(Debug)]
pub struct DomainRecord {
    pub id: String,
    pub crm_id: String,
    pub is_active: bool,
    pub age: i32,
    pub name: String,
    pub company: String,
    pub gender: String,
    pub email: String,
}

impl View for DomainRecord {
    type V = RecModel;

    open spec fn view(&self) -> RecModel {
        RecModel {
            id: self.id@,
            crm_id: self.crm_id@,
            is_active: self.is_active,
            age: self.age as int,
            name: self.name@,
            company: self.company@,
            gender: self.gender@,
            email: self.email@,
        }
    }
}

/// A model that an executable record can hold: the numeric attribute fits its
/// machine type.  Every attribute string is representable as is.
pub open spec fn rec_model_valid(m: RecModel) -> bool {
    -0x8000_0000 <= m.age < 0x8000_0000
}

} // verus!
