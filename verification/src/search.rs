//! The options and the result of a search.
use vstd::prelude::*;
use vstd::string::StringExecFns;

verus! {

/// The result of a search: the text found.
#[derive(Debug)]
pub struct ResultValue {
    data: String,
}

impl ResultValue {
    /// The text found.
    pub closed spec fn spec_data(self) -> Seq<char> {
        self.data@
    }

    /// The text found.
    pub fn data(&self) -> (r: &str)
        ensures
            r@ == self.spec_data(),
    {
        self.data.as_str()
    }
}

/// What a search is for: the address to ask and its parameters.
#[derive(Debug)]
pub struct SearchOption<T> {
    url: String,
    parameters: Option<T>,
}

impl<T> SearchOption<T> {
    /// The address to ask.
    pub closed spec fn spec_url(self) -> Seq<char> {
        self.url@
    }

    /// The parameters of the search.
    pub closed spec fn spec_parameters(self) -> Option<T> {
        self.parameters
    }

    /// Options for a search of `url` with the parameters `t`.
    pub fn new(url: &str, t: T) -> (o: SearchOption<T>)
        ensures
            o.spec_url() == url@,
            o.spec_parameters() == Some(t),
    {
        SearchOption { url: String::from_str(url), parameters: Some(t) }
    }

    /// The text that describes the options when they are debugged: the address alone.
    pub fn debug_text(&self) -> (s: String)
        ensures
            s@ == self.spec_url(),
    {
        self.url.clone()
    }

    /// The address to ask.
    pub fn url(&self) -> (r: &str)
        ensures
            r@ == self.spec_url(),
    {
        self.url.as_str()
    }

    /// The parameters of the search.
    pub fn parameters(&self) -> (r: &Option<T>)
        ensures
            *r == self.spec_parameters(),
    {
        &self.parameters
    }
}

/// A search: whatever the options, it finds nothing, an empty text.
pub fn search<T>(optio: T) -> (r: ResultValue)
    ensures
        r.spec_data() == Seq::<char>::empty(),
{
    ResultValue { data: String::new() }
}

} // verus!
