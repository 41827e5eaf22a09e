use vstd::prelude::*;

verus! {

/// An HTTP reply as the component hands it to the runtime: status, headers in order,
/// and body text.
pub struct Reply {
    pub status: u16,
    pub headers: Vec<(String, String)>,
    pub body: String,
}

/// The abstract content of a reply.
pub struct ReplyView {
    pub status: u16,
    pub headers: Seq<(Seq<char>, Seq<char>)>,
    pub body: Seq<char>,
}

impl View for Reply {
    type V = ReplyView;

    open spec fn view(&self) -> ReplyView {
        ReplyView {
            status: self.status,
            headers: self.headers@.map_values(|h: (String, String)| (h.0@, h.1@)),
            body: self.body@,
        }
    }
}

impl ReplyView {
    /// The reply carries a header with this name and this value.
    pub open spec fn has_header(self, name: Seq<char>, value: Seq<char>) -> bool {
        exists|i: int| 0 <= i < self.headers.len() && #[trigger] self.headers[i] == (name, value)
    }
}

} // verus!
