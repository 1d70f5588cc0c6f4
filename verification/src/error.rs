//! The errors of the exchange's operations.
use vstd::prelude::*;
use mongodb::bson::de::Error as BsonDeError;
use mongodb::bson::oid::Error as ObjectIdError;
use mongodb::bson::ser::Error as BsonSerError;
use mongodb::error::Error as MongoError;

verus! {

/// MongoDB's error type, carried through unchanged.
#[verifier::external_type_specification]
#[verifier::external_body]
pub struct ExMongoError(MongoError);

/// BSON's deserialization error, carried through unchanged.
#[verifier::external_type_specification]
#[verifier::external_body]
pub struct ExBsonDeError(BsonDeError);

/// BSON's serialization error, carried through unchanged.
#[verifier::external_type_specification]
#[verifier::external_body]
pub struct ExBsonSerError(BsonSerError);

/// The error of parsing an object id, carried through unchanged.
#[verifier::external_type_specification]
#[verifier::external_body]
pub struct ExObjectIdError(ObjectIdError);

/// Why an operation failed.
pub enum Error {
    /// Something the operation needs does not exist.
    NotFound(&'static str),
    /// The request breaks a rule of the exchange.
    Validation(&'static str),
    DbError(MongoError),
    DbBsonDeError(BsonDeError),
    DbBsonSerError(BsonSerError),
    DbObjectIdError(ObjectIdError),
}

pub type Result<T> = core::result::Result<T, Error>;

impl From<MongoError> for Error {
    fn from(value: MongoError) -> (error: Self) {
        Error::DbError(value)
    }
}

impl vstd::std_specs::convert::FromSpecImpl<MongoError> for Error {
    open spec fn obeys_from_spec() -> bool {
        true
    }

    open spec fn from_spec(v: MongoError) -> Self {
        Error::DbError(v)
    }
}

impl From<BsonDeError> for Error {
    fn from(value: BsonDeError) -> (error: Self) {
        Error::DbBsonDeError(value)
    }
}

impl vstd::std_specs::convert::FromSpecImpl<BsonDeError> for Error {
    open spec fn obeys_from_spec() -> bool {
        true
    }

    open spec fn from_spec(v: BsonDeError) -> Self {
        Error::DbBsonDeError(v)
    }
}

impl From<BsonSerError> for Error {
    fn from(value: BsonSerError) -> (error: Self) {
        Error::DbBsonSerError(value)
    }
}

impl vstd::std_specs::convert::FromSpecImpl<BsonSerError> for Error {
    open spec fn obeys_from_spec() -> bool {
        true
    }

    open spec fn from_spec(v: BsonSerError) -> Self {
        Error::DbBsonSerError(v)
    }
}

impl From<ObjectIdError> for Error {
    fn from(value: ObjectIdError) -> (error: Self) {
        Error::DbObjectIdError(value)
    }
}

impl vstd::std_specs::convert::FromSpecImpl<ObjectIdError> for Error {
    open spec fn obeys_from_spec() -> bool {
        true
    }

    open spec fn from_spec(v: ObjectIdError) -> Self {
        Error::DbObjectIdError(v)
    }
}

} // verus!
