//! C2PA records: what a font carries of a content credential, and how such
//! a record is built and updated.

use crate::error::FontIoError;
use crate::sfnt::table::c2pa::{C2PAView, TableC2PA};
use vstd::prelude::*;
use vstd::string::StringExecFns;

verus! {

/// The major version of a record when none is given.
pub const DEFAULT_MAJOR_VERSION: u16 = 0u16;

/// The highest major version supported.
pub const MAX_MAJOR_VERSION: u16 = 0u16;

/// The minor version of a record when none is given.
pub const DEFAULT_MINOR_VERSION: u16 = 1u16;

/// The text of an optional string, as characters.
pub open spec fn opt_chars(o: Option<String>) -> Option<Seq<char>> {
    match o {
        Some(s) => Some(s@),
        None => None,
    }
}

/// The contents of an optional byte vector.
pub open spec fn opt_seq(o: Option<Vec<u8>>) -> Option<Seq<u8>> {
    match o {
        Some(v) => Some(v@),
        None => None,
    }
}

/// Adding, reading and removing the C2PA record of a font.
pub trait C2PASupport {
    /// The error type for C2PA operations.
    type Error;

    /// Adds a C2PA record.
    fn add_c2pa_record(&mut self, record: ContentCredentialRecord) -> Result<(), Self::Error>;

    /// Whether a C2PA record is present.
    fn has_c2pa(&self) -> bool;

    /// The C2PA record, if there is one.
    fn get_c2pa(self) -> Result<Option<ContentCredentialRecord>, Self::Error>;

    /// Removes the C2PA record.
    fn remove_c2pa_record(&mut self) -> Result<(), Self::Error>;
}

/// Updating a C2PA record in place.
pub trait UpdatableC2PA {
    /// The error type for updates.
    type Error;

    /// Applies the changes that `record` asks for.
    fn update_c2pa_record(&mut self, record: UpdateContentCredentialRecord) -> Result<
        (),
        Self::Error,
    >;
}

/// A content credential record: the version of the record, the URI of the
/// active manifest and the manifest store itself.
#[derive(Clone, Debug)]
pub struct ContentCredentialRecord {
    /// The major version of the record.
    pub major_version: u16,
    /// The minor version of the record.
    pub minor_version: u16,
    /// The URI of the active manifest.
    pub active_manifest_uri: Option<String>,
    /// The manifest store.
    pub content_credential: Option<Vec<u8>>,
}

impl View for ContentCredentialRecord {
    type V = C2PAView;

    /// The versions, the URI as characters and the manifest store as bytes.
    open spec fn view(&self) -> C2PAView {
        (
            self.major_version,
            self.minor_version,
            opt_chars(self.active_manifest_uri),
            opt_seq(self.content_credential),
        )
    }
}

/// The error that building a record of this version gives, if any: only
/// version 0.1 is supported.
pub open spec fn spec_version_error(major: u16, minor: u16) -> Option<FontIoError> {
    if major > MAX_MAJOR_VERSION {
        Some(FontIoError::InvalidC2paMajorVersion(major))
    } else if major == 0 && minor != 1 {
        Some(FontIoError::InvalidC2paMinorVersion(minor))
    } else {
        None
    }
}

impl ContentCredentialRecord {
    /// A builder for a record.
    pub fn builder() -> (r: ContentCredentialRecordBuilder)
        ensures
            r@ == (None::<u16>, None::<u16>, None::<String>, None::<Vec<u8>>),
    {
        ContentCredentialRecordBuilder::default()
    }

    /// The major version of the record.
    pub fn major_version(&self) -> (r: u16)
        ensures
            r == self.major_version,
    {
        self.major_version
    }

    /// The minor version of the record.
    pub fn minor_version(&self) -> (r: u16)
        ensures
            r == self.minor_version,
    {
        self.minor_version
    }

    /// The URI of the active manifest.
    pub fn active_manifest_uri(&self) -> (r: Option<&str>)
        ensures
            r is Some <==> self.active_manifest_uri is Some,
            r matches Some(s) ==> s@ == self.active_manifest_uri.unwrap()@,
    {
        match &self.active_manifest_uri {
            Some(s) => Some(s.as_str()),
            None => None,
        }
    }

    /// The manifest store.
    pub fn content_credential(&self) -> (r: Option<&[u8]>)
        ensures
            r is Some <==> self.content_credential is Some,
            r matches Some(s) ==> s@ == self.content_credential.unwrap()@,
    {
        match &self.content_credential {
            Some(v) => Some(v.as_slice()),
            None => None,
        }
    }
}

impl ContentCredentialRecord {
    /// The record that a C2PA table holds; fails if the table's version is
    /// not supported.
    pub fn try_from(value: &TableC2PA) -> (r: Result<Self, FontIoError>)
        ensures
            match spec_version_error(value.major_version, value.minor_version) {
                Some(e) => r == Err::<ContentCredentialRecord, FontIoError>(e),
                None => r matches Ok(rec) && {
                    &&& rec.major_version == value.major_version
                    &&& rec.minor_version == value.minor_version
                    &&& opt_chars(rec.active_manifest_uri) == opt_chars(value.active_manifest_uri)
                    &&& opt_seq(rec.content_credential) == opt_seq(value.manifest_store)
                },
            },
    {
        let mut builder = ContentCredentialRecord::builder().with_version(
            value.major_version,
            value.minor_version,
        );
        if let Some(active_manifest_uri) = &value.active_manifest_uri {
            builder = builder.with_active_manifest_uri(String::from_str(active_manifest_uri.as_str()));
        }
        if let Some(content_credential) = &value.manifest_store {
            builder = builder.with_content_credential(content_credential.clone());
            assert(builder@.3.unwrap()@ =~= content_credential@);
        }
        builder.build()
    }
}

impl Default for ContentCredentialRecord {
    /// A record of version 0.1 with no URI and no manifest store.
    fn default() -> (r: Self)
        ensures
            r.major_version == DEFAULT_MAJOR_VERSION,
            r.minor_version == DEFAULT_MINOR_VERSION,
            r.active_manifest_uri is None,
            r.content_credential is None,
    {
        Self {
            major_version: DEFAULT_MAJOR_VERSION,
            minor_version: DEFAULT_MINOR_VERSION,
            active_manifest_uri: None,
            content_credential: None,
        }
    }
}

/// A change to one part of a record.
#[derive(Debug)]
pub enum UpdateType<T> {
    /// Remove the value.
    Remove,
    /// Replace the value.
    Update(T),
}

/// The changes to make to a record: for each part, nothing, a removal or a
/// new value.
#[derive(Debug)]
pub struct UpdateContentCredentialRecord {
    /// The change to the URI of the active manifest.
    pub active_manifest_uri: Option<UpdateType<String>>,
    /// The change to the manifest store.
    pub content_credential: Option<UpdateType<Vec<u8>>>,
}

impl UpdateContentCredentialRecord {
    /// Takes the change to the URI of the active manifest, leaving none.
    pub fn take_active_manifest_uri(&mut self) -> (r: Option<UpdateType<String>>)
        ensures
            r == old(self).active_manifest_uri,
            final(self).active_manifest_uri is None,
            final(self).content_credential == old(self).content_credential,
    {
        self.active_manifest_uri.take()
    }

    /// Takes the change to the manifest store, leaving none.
    pub fn take_content_credential(&mut self) -> (r: Option<UpdateType<Vec<u8>>>)
        ensures
            r == old(self).content_credential,
            final(self).content_credential is None,
            final(self).active_manifest_uri == old(self).active_manifest_uri,
    {
        self.content_credential.take()
    }

    /// A builder for an update.
    pub fn builder() -> (r: UpdateContentCredentialRecordBuilder)
        ensures
            r@ == (None::<UpdateType<String>>, None::<UpdateType<Vec<u8>>>),
    {
        UpdateContentCredentialRecordBuilder::default()
    }
}

/// Builds an [`UpdateContentCredentialRecord`].
pub struct UpdateContentCredentialRecordBuilder {
    active_manifest_uri: Option<UpdateType<String>>,
    content_credential: Option<UpdateType<Vec<u8>>>,
}

impl View for UpdateContentCredentialRecordBuilder {
    type V = (Option<UpdateType<String>>, Option<UpdateType<Vec<u8>>>);

    closed spec fn view(&self) -> Self::V {
        (self.active_manifest_uri, self.content_credential)
    }
}

impl Default for UpdateContentCredentialRecordBuilder {
    /// A builder that asks for no change.
    fn default() -> (r: Self)
        ensures
            r@ == (None::<UpdateType<String>>, None::<UpdateType<Vec<u8>>>),
    {
        Self { active_manifest_uri: None, content_credential: None }
    }
}

impl UpdateContentCredentialRecordBuilder {
    /// Sets the URI of the active manifest to `active_manifest_uri`.
    pub fn with_active_manifest_uri(self, active_manifest_uri: String) -> (r: Self)
        ensures
            r@ == (Some(UpdateType::Update(active_manifest_uri)), self@.1),
    {
        let mut b = self;
        b.active_manifest_uri = Some(UpdateType::Update(active_manifest_uri));
        b
    }

    /// Removes the URI of the active manifest.
    pub fn without_active_manifest_uri(self) -> (r: Self)
        ensures
            r@ == (Some(UpdateType::<String>::Remove), self@.1),
    {
        let mut b = self;
        b.active_manifest_uri = Some(UpdateType::Remove);
        b
    }

    /// Sets the manifest store to `content_credential`.
    pub fn with_content_credential(self, content_credential: Vec<u8>) -> (r: Self)
        ensures
            r@ == (self@.0, Some(UpdateType::Update(content_credential))),
    {
        let mut b = self;
        b.content_credential = Some(UpdateType::Update(content_credential));
        b
    }

    /// Removes the manifest store.
    pub fn without_content_credentials(self) -> (r: Self)
        ensures
            r@ == (self@.0, Some(UpdateType::<Vec<u8>>::Remove)),
    {
        let mut b = self;
        b.content_credential = Some(UpdateType::Remove);
        b
    }

    /// Builds the update.
    pub fn build(self) -> (r: UpdateContentCredentialRecord)
        ensures
            r.active_manifest_uri == self@.0,
            r.content_credential == self@.1,
    {
        UpdateContentCredentialRecord {
            active_manifest_uri: self.active_manifest_uri,
            content_credential: self.content_credential,
        }
    }
}

/// Builds a [`ContentCredentialRecord`].
pub struct ContentCredentialRecordBuilder {
    major_version: Option<u16>,
    minor_version: Option<u16>,
    active_manifest_uri: Option<String>,
    content_credential: Option<Vec<u8>>,
}

impl View for ContentCredentialRecordBuilder {
    type V = (Option<u16>, Option<u16>, Option<String>, Option<Vec<u8>>);

    closed spec fn view(&self) -> Self::V {
        (self.major_version, self.minor_version, self.active_manifest_uri, self.content_credential)
    }
}

impl Default for ContentCredentialRecordBuilder {
    /// A builder with nothing set.
    fn default() -> (r: Self)
        ensures
            r@ == (None::<u16>, None::<u16>, None::<String>, None::<Vec<u8>>),
    {
        Self {
            major_version: None,
            minor_version: None,
            active_manifest_uri: None,
            content_credential: None,
        }
    }
}

/// The version that a builder asks for: 0.1 where it names none.
pub open spec fn spec_builder_version(
    b: (Option<u16>, Option<u16>, Option<String>, Option<Vec<u8>>),
) -> (u16, u16) {
    (
        match b.0 {
            Some(v) => v,
            None => DEFAULT_MAJOR_VERSION,
        },
        match b.1 {
            Some(v) => v,
            None => DEFAULT_MINOR_VERSION,
        },
    )
}

impl ContentCredentialRecordBuilder {
    /// Builds the record; fails if its version is not supported.
    pub fn build(self) -> (r: Result<ContentCredentialRecord, FontIoError>)
        ensures
            ({
                let (major, minor) = spec_builder_version(self@);
                match spec_version_error(major, minor) {
                    Some(e) => r == Err::<ContentCredentialRecord, FontIoError>(e),
                    None => r == Ok::<ContentCredentialRecord, FontIoError>(
                        ContentCredentialRecord {
                            major_version: major,
                            minor_version: minor,
                            active_manifest_uri: self@.2,
                            content_credential: self@.3,
                        },
                    ),
                }
            }),
    {
        let major_version = match self.major_version {
            Some(v) => v,
            None => DEFAULT_MAJOR_VERSION,
        };
        if major_version > MAX_MAJOR_VERSION {
            return Err(FontIoError::InvalidC2paMajorVersion(major_version));
        }
        let minor_version = match self.minor_version {
            Some(v) => v,
            None => DEFAULT_MINOR_VERSION,
        };
        if major_version == 0u16 && minor_version != 1u16 {
            return Err(FontIoError::InvalidC2paMinorVersion(minor_version));
        }
        Ok(
            ContentCredentialRecord {
                major_version,
                minor_version,
                active_manifest_uri: self.active_manifest_uri,
                content_credential: self.content_credential,
            },
        )
    }

    /// Asks for version `major_version.minor_version`.
    pub fn with_version(self, major_version: u16, minor_version: u16) -> (r: Self)
        ensures
            r@ == (Some(major_version), Some(minor_version), self@.2, self@.3),
    {
        let mut b = self;
        b.major_version = Some(major_version);
        b.minor_version = Some(minor_version);
        b
    }

    /// Sets the URI of the active manifest.
    pub fn with_active_manifest_uri(self, active_manifest_uri: String) -> (r: Self)
        ensures
            r@ == (self@.0, self@.1, Some(active_manifest_uri), self@.3),
    {
        let mut b = self;
        b.active_manifest_uri = Some(active_manifest_uri);
        b
    }

    /// Sets the manifest store.
    pub fn with_content_credential(self, content_credential: Vec<u8>) -> (r: Self)
        ensures
            r@ == (self@.0, self@.1, self@.2, Some(content_credential)),
    {
        let mut b = self;
        b.content_credential = Some(content_credential);
        b
    }
}

} // verus!
