//! The contact form page: the response to send once its template has been
//! rendered with the visitor's validation cookie.
use vstd::prelude::*;
use crate::http::{html_page, plain, Response};
use crate::text::concat;

verus! {

/// Which fields of a submitted comment were found valid, as the contact
/// template reads them.
pub struct CommentValidation {
    pub name_valid: Option<bool>,
    pub comment_valid: Option<bool>,
}

/// The response for the contact page: the rendered page, or, when the
/// template could not be rendered, a server error that carries the
/// renderer's message.
pub fn respond_rendered(rendered: Result<String, String>) -> (r: Response)
    ensures
        rendered is Ok ==> r@ == html_page(rendered->Ok_0@),
        rendered is Err ==> r@ == plain(500, "error: "@ + rendered->Err_0@),
{
    match rendered {
        Ok(page) => Response::create(200, "text/html", page.as_str()),
        Err(message) => {
            let body = concat("error: ", message.as_str());
            Response::create(500, "text/plain", body.as_str())
        },
    }
}

} // verus!
