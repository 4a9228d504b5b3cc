//! The index's field catalog: the text fields a document is indexed under and
//! the numeric fast fields read at scoring time.

use vstd::prelude::*;

verus! {

#[derive(Debug, Clone, Copy, PartialEq, Eq, Structural, Hash)]
pub enum TextField {
    Title,
    CleanBody,
    StemmedTitle,
    StemmedCleanBody,
    AllBody,
    Url,
    Site,
    Domain,
    SiteNoTokenizer,
    DomainNoTokenizer,
    /// Only set when the webpage is the homepage of its site, so that
    /// navigational queries can boost the site root.
    DomainIfHomepage,
    /// Only set when the webpage is the homepage of its site.
    DomainNameIfHomepageNoTokenizer,
    /// Only set when the webpage is the homepage of its site.
    TitleIfHomepage,
    BacklinkText,
    Description,
}

#[derive(Debug, Clone, Copy, PartialEq, Eq, Structural, Hash)]
pub enum FastField {
    IsHomepage,
    HostCentrality,
    PageCentrality,
    FetchTimeMs,
    LastUpdated,
    NumTrackers,
    Region,
    NumUrlTokens,
    NumTitleTokens,
    NumCleanBodyTokens,
    NumDescriptionTokens,
    PreComputedScore,
}

#[derive(Debug, Clone, Copy, PartialEq, Eq, Structural, Hash)]
pub enum Field {
    Fast(FastField),
    Text(TextField),
}

pub enum DataType {
    U64,
}

/// The name a field is addressed by in ranking-policy programs and stored
/// field lookups.
pub open spec fn spec_field_name(f: Field) -> Seq<char> {
    match f {
        Field::Text(TextField::Title) => "title"@,
        Field::Text(TextField::CleanBody) => "body"@,
        Field::Text(TextField::Url) => "url"@,
        Field::Text(TextField::Site) => "site"@,
        Field::Text(TextField::Domain) => "domain"@,
        Field::Text(TextField::SiteNoTokenizer) => "site_no_tokenizer"@,
        Field::Text(TextField::DomainNoTokenizer) => "domain_no_tokenizer"@,
        Field::Text(TextField::BacklinkText) => "backlink_text"@,
        Field::Text(TextField::StemmedTitle) => "stemmed_title"@,
        Field::Text(TextField::StemmedCleanBody) => "stemmed_body"@,
        Field::Text(TextField::DomainIfHomepage) => "domain_if_homepage"@,
        Field::Text(TextField::DomainNameIfHomepageNoTokenizer)
            => "domain_name_if_homepage_no_tokenizer"@,
        Field::Text(TextField::Description) => "description"@,
        Field::Text(TextField::TitleIfHomepage) => "title_if_homepage"@,
        Field::Text(TextField::AllBody) => "all_body"@,
        Field::Fast(FastField::HostCentrality) => "host_centrality"@,
        Field::Fast(FastField::PageCentrality) => "page_centrality"@,
        Field::Fast(FastField::IsHomepage) => "is_homepage"@,
        Field::Fast(FastField::FetchTimeMs) => "fetch_time_ms"@,
        Field::Fast(FastField::LastUpdated) => "last_updated"@,
        Field::Fast(FastField::NumTrackers) => "num_trackers"@,
        Field::Fast(FastField::Region) => "region"@,
        Field::Fast(FastField::NumUrlTokens) => "num_url_tokens"@,
        Field::Fast(FastField::NumTitleTokens) => "num_title_tokens"@,
        Field::Fast(FastField::NumCleanBodyTokens) => "num_clean_body_tokens"@,
        Field::Fast(FastField::NumDescriptionTokens) => "num_description_tokens"@,
        Field::Fast(FastField::PreComputedScore) => "pre_computed_score"@,
    }
}

impl Field {
    pub fn name(&self) -> (r: &'static str)
        ensures
            r@ == spec_field_name(*self),
    {
        match self {
            Field::Text(TextField::Title) => "title",
            Field::Text(TextField::CleanBody) => "body",
            Field::Text(TextField::Url) => "url",
            Field::Text(TextField::Site) => "site",
            Field::Text(TextField::Domain) => "domain",
            Field::Text(TextField::SiteNoTokenizer) => "site_no_tokenizer",
            Field::Text(TextField::DomainNoTokenizer) => "domain_no_tokenizer",
            Field::Text(TextField::BacklinkText) => "backlink_text",
            Field::Text(TextField::StemmedTitle) => "stemmed_title",
            Field::Text(TextField::StemmedCleanBody) => "stemmed_body",
            Field::Text(TextField::DomainIfHomepage) => "domain_if_homepage",
            Field::Text(TextField::DomainNameIfHomepageNoTokenizer) => {
                "domain_name_if_homepage_no_tokenizer"
            },
            Field::Text(TextField::Description) => "description",
            Field::Text(TextField::TitleIfHomepage) => "title_if_homepage",
            Field::Text(TextField::AllBody) => "all_body",
            Field::Fast(FastField::HostCentrality) => "host_centrality",
            Field::Fast(FastField::PageCentrality) => "page_centrality",
            Field::Fast(FastField::IsHomepage) => "is_homepage",
            Field::Fast(FastField::FetchTimeMs) => "fetch_time_ms",
            Field::Fast(FastField::LastUpdated) => "last_updated",
            Field::Fast(FastField::NumTrackers) => "num_trackers",
            Field::Fast(FastField::Region) => "region",
            Field::Fast(FastField::NumUrlTokens) => "num_url_tokens",
            Field::Fast(FastField::NumTitleTokens) => "num_title_tokens",
            Field::Fast(FastField::NumCleanBodyTokens) => "num_clean_body_tokens",
            Field::Fast(FastField::NumDescriptionTokens) => "num_description_tokens",
            Field::Fast(FastField::PreComputedScore) => "pre_computed_score",
        }
    }

    /// The fixed importance boost of a searchable text field, in hundredths:
    /// a result of `1000` multiplies the field's term matches by `10.0`.
    pub fn boost(&self) -> (r: Option<u64>)
        ensures
            r == spec_field_boost(*self),
    {
        match self {
            Field::Text(TextField::Site) => Some(300),
            Field::Text(TextField::TitleIfHomepage) => Some(200),
            Field::Text(TextField::DomainIfHomepage) => Some(1000),
            Field::Text(TextField::DomainNameIfHomepageNoTokenizer) => Some(3000),
            Field::Text(TextField::StemmedCleanBody) => Some(10),
            Field::Text(TextField::StemmedTitle) => Some(10),
            Field::Text(TextField::CleanBody) => Some(400),
            Field::Text(TextField::Title) => Some(1000),
            Field::Text(TextField::Url) => Some(100),
            Field::Text(TextField::Domain) => Some(100),
            Field::Text(TextField::AllBody) => Some(1),
            Field::Text(TextField::BacklinkText) => Some(400),
            Field::Text(TextField::SiteNoTokenizer) => None,
            Field::Text(TextField::DomainNoTokenizer) => None,
            Field::Text(TextField::Description) => None,
            Field::Fast(_) => None,
        }
    }

    pub fn is_searchable(&self) -> (r: bool)
        ensures
            r == spec_is_searchable(*self),
    {
        !(matches!(self, Field::Text(TextField::BacklinkText))) && !self.is_fast()
    }

    pub fn is_fast(&self) -> (r: bool)
        ensures
            r == (self is Fast),
    {
        matches!(self, Field::Fast(_))
    }

    pub fn from_name(name: String) -> (r: Option<Field>)
        ensures
            r == spec_field_from_name(name@),
    {
        let s = name.as_str();
        if crate::text::str_eq(s, "title") {
            Some(Field::Text(TextField::Title))
        } else if crate::text::str_eq(s, "body") {
            Some(Field::Text(TextField::CleanBody))
        } else if crate::text::str_eq(s, "url") {
            Some(Field::Text(TextField::Url))
        } else if crate::text::str_eq(s, "site") {
            Some(Field::Text(TextField::Site))
        } else if crate::text::str_eq(s, "backlink_text") {
            Some(Field::Text(TextField::BacklinkText))
        } else if crate::text::str_eq(s, "stemmed_title") {
            Some(Field::Text(TextField::StemmedTitle))
        } else if crate::text::str_eq(s, "stemmed_body") {
            Some(Field::Text(TextField::StemmedCleanBody))
        } else if crate::text::str_eq(s, "domain") {
            Some(Field::Text(TextField::Domain))
        } else if crate::text::str_eq(s, "domain_if_homepage") {
            Some(Field::Text(TextField::DomainIfHomepage))
        } else if crate::text::str_eq(s, "domain_name_if_homepage_no_tokenizer") {
            Some(Field::Text(TextField::DomainNameIfHomepageNoTokenizer))
        } else if crate::text::str_eq(s, "description") {
            Some(Field::Text(TextField::Description))
        } else if crate::text::str_eq(s, "all_body") {
            Some(Field::Text(TextField::AllBody))
        } else if crate::text::str_eq(s, "title_if_homepage") {
            Some(Field::Text(TextField::TitleIfHomepage))
        } else if crate::text::str_eq(s, "host_centrality") {
            Some(Field::Fast(FastField::HostCentrality))
        } else if crate::text::str_eq(s, "page_centrality") {
            Some(Field::Fast(FastField::PageCentrality))
        } else if crate::text::str_eq(s, "is_homepage") {
            Some(Field::Fast(FastField::IsHomepage))
        } else if crate::text::str_eq(s, "fetch_time_ms") {
            Some(Field::Fast(FastField::FetchTimeMs))
        } else if crate::text::str_eq(s, "last_updated") {
            Some(Field::Fast(FastField::LastUpdated))
        } else if crate::text::str_eq(s, "num_trackers") {
            Some(Field::Fast(FastField::NumTrackers))
        } else if crate::text::str_eq(s, "region") {
            Some(Field::Fast(FastField::Region))
        } else {
            None
        }
    }

    pub fn as_text(&self) -> (r: Option<TextField>)
        ensures
            r == (match *self {
                Field::Text(f) => Some(f),
                Field::Fast(_) => None::<TextField>,
            }),
    {
        match self {
            Field::Fast(_) => None,
            Field::Text(field) => Some(*field),
        }
    }

    pub fn as_fast(&self) -> (r: Option<FastField>)
        ensures
            r == (match *self {
                Field::Fast(f) => Some(f),
                Field::Text(_) => None::<FastField>,
            }),
    {
        match self {
            Field::Fast(field) => Some(*field),
            Field::Text(_) => None,
        }
    }
}

pub open spec fn spec_field_boost(f: Field) -> Option<u64> {
    match f {
        Field::Text(TextField::Site) => Some(300u64),
        Field::Text(TextField::TitleIfHomepage) => Some(200u64),
        Field::Text(TextField::DomainIfHomepage) => Some(1000u64),
        Field::Text(TextField::DomainNameIfHomepageNoTokenizer) => Some(3000u64),
        Field::Text(TextField::StemmedCleanBody) => Some(10u64),
        Field::Text(TextField::StemmedTitle) => Some(10u64),
        Field::Text(TextField::CleanBody) => Some(400u64),
        Field::Text(TextField::Title) => Some(1000u64),
        Field::Text(TextField::Url) => Some(100u64),
        Field::Text(TextField::Domain) => Some(100u64),
        Field::Text(TextField::AllBody) => Some(1u64),
        Field::Text(TextField::BacklinkText) => Some(400u64),
        _ => None,
    }
}

pub open spec fn spec_is_searchable(f: Field) -> bool {
    f is Text && !(f == Field::Text(TextField::BacklinkText))
}

pub open spec fn spec_field_from_name(s: Seq<char>) -> Option<Field> {
    if s == "title"@ {
        Some(Field::Text(TextField::Title))
    } else if s == "body"@ {
        Some(Field::Text(TextField::CleanBody))
    } else if s == "url"@ {
        Some(Field::Text(TextField::Url))
    } else if s == "site"@ {
        Some(Field::Text(TextField::Site))
    } else if s == "backlink_text"@ {
        Some(Field::Text(TextField::BacklinkText))
    } else if s == "stemmed_title"@ {
        Some(Field::Text(TextField::StemmedTitle))
    } else if s == "stemmed_body"@ {
        Some(Field::Text(TextField::StemmedCleanBody))
    } else if s == "domain"@ {
        Some(Field::Text(TextField::Domain))
    } else if s == "domain_if_homepage"@ {
        Some(Field::Text(TextField::DomainIfHomepage))
    } else if s == "domain_name_if_homepage_no_tokenizer"@ {
        Some(Field::Text(TextField::DomainNameIfHomepageNoTokenizer))
    } else if s == "description"@ {
        Some(Field::Text(TextField::Description))
    } else if s == "all_body"@ {
        Some(Field::Text(TextField::AllBody))
    } else if s == "title_if_homepage"@ {
        Some(Field::Text(TextField::TitleIfHomepage))
    } else if s == "host_centrality"@ {
        Some(Field::Fast(FastField::HostCentrality))
    } else if s == "page_centrality"@ {
        Some(Field::Fast(FastField::PageCentrality))
    } else if s == "is_homepage"@ {
        Some(Field::Fast(FastField::IsHomepage))
    } else if s == "fetch_time_ms"@ {
        Some(Field::Fast(FastField::FetchTimeMs))
    } else if s == "last_updated"@ {
        Some(Field::Fast(FastField::LastUpdated))
    } else if s == "num_trackers"@ {
        Some(Field::Fast(FastField::NumTrackers))
    } else if s == "region"@ {
        Some(Field::Fast(FastField::Region))
    } else {
        None
    }
}

impl FastField {
    pub fn data_type(&self) -> (r: DataType)
        ensures
            r is U64,
    {
        DataType::U64
    }
}

} // verus!
