//! Personally identifiable information for the manuscript's contact block.
//! Every field is optional.

use vstd::prelude::*;

verus! {

/// Author contact details, read from a dedicated front-matter file.
pub struct PII {
    /// Your full legal name.
    pub legal_name: Option<String>,
    /// Your email address.
    pub email: Option<String>,
    /// Your phone number.
    pub phone: Option<String>,
    /// Your physical address.
    pub address1: Option<String>,
    /// Your physical address.
    pub address2: Option<String>,
    /// Your physical address.
    pub city: Option<String>,
    /// Your physical address.
    pub state: Option<String>,
    /// Your physical address.
    pub postal_code: Option<String>,
    /// Your physical address.
    pub country: Option<String>,
    /// A list of professional affiliations, if applicable.
    pub affiliations: Option<Vec<String>>,
}

/// The mathematical value of a `PII`: each field as an optional character
/// sequence (or sequence of sequences).
pub struct PiiView {
    pub legal_name: Option<Seq<char>>,
    pub email: Option<Seq<char>>,
    pub phone: Option<Seq<char>>,
    pub address1: Option<Seq<char>>,
    pub address2: Option<Seq<char>>,
    pub city: Option<Seq<char>>,
    pub state: Option<Seq<char>>,
    pub postal_code: Option<Seq<char>>,
    pub country: Option<Seq<char>>,
    pub affiliations: Option<Seq<Seq<char>>>,
}

impl View for PII {
    type V = PiiView;

    open spec fn view(&self) -> PiiView {
        PiiView {
            legal_name: self.legal_name.deep_view(),
            email: self.email.deep_view(),
            phone: self.phone.deep_view(),
            address1: self.address1.deep_view(),
            address2: self.address2.deep_view(),
            city: self.city.deep_view(),
            state: self.state.deep_view(),
            postal_code: self.postal_code.deep_view(),
            country: self.country.deep_view(),
            affiliations: self.affiliations.deep_view(),
        }
    }
}

/// A PII document: the parsed contact details together with the file body.
pub struct PiiDocument {
    pub metadata: PII,
    pub content: String,
}

/// The mathematical value of a `PiiDocument`.
pub struct PiiDocumentView {
    pub metadata: PiiView,
    pub content: Seq<char>,
}

impl View for PiiDocument {
    type V = PiiDocumentView;

    open spec fn view(&self) -> PiiDocumentView {
        PiiDocumentView { metadata: self.metadata@, content: self.content@ }
    }
}

} // verus!
