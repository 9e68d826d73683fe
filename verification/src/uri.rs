//! The URIs under which resources are retrieved.

use crate::encoding::{percent_encode, percent_encoded};
use vstd::prelude::*;

verus! {

/// The path of a resource below its category: each segment percent-encoded,
/// with a slash before it.
pub open spec fn encoded_path(segments: Seq<Seq<char>>) -> Seq<char>
    decreases segments.len(),
{
    if segments.len() == 0 {
        Seq::empty()
    } else {
        encoded_path(segments.drop_last()) + seq!['/'] + percent_encoded(segments.last())
    }
}

/// The URI under which the resource at `segments` in category `filetype` is
/// retrieved.
pub open spec fn uri_of(filetype: Seq<char>, segments: Seq<Seq<char>>) -> Seq<char> {
    "/files/"@ + percent_encoded(filetype) + encoded_path(segments)
}

/// Builds the URI under which a resource is retrieved.
pub fn resource_uri(filetype: &str, segments: &Vec<String>) -> (uri: String)
    ensures
        uri@ == uri_of(filetype@, segments.deep_view()),
{
    let mut uri = String::from_str("/files/");
    uri.append(percent_encode(filetype).as_str());
    let ghost head = uri@;
    let mut i: usize = 0;
    assert(head + encoded_path(segments.deep_view().take(0)) =~= head);
    while i < segments.len()
        invariant
            i <= segments.len(),
            head == "/files/"@ + percent_encoded(filetype@),
            uri@ == head + encoded_path(segments.deep_view().take(i as int)),
        decreases segments.len() - i,
    {
        proof {
            let before = segments.deep_view().take(i as int);
            let after = segments.deep_view().take(i + 1);
            assert(after.drop_last() =~= before);
            assert(after.last() == segments[i as int]@);
            assert(head + (encoded_path(before) + seq!['/'] + percent_encoded(after.last()))
                =~= head + encoded_path(before) + seq!['/'] + percent_encoded(after.last()));
        }
        uri.append("/");
        proof {
            reveal_strlit("/");
            assert("/"@ =~= seq!['/']);
        }
        uri.append(percent_encode(segments[i].as_str()).as_str());
        i += 1;
    }
    assert(segments.deep_view().take(segments.len() as int) =~= segments.deep_view());
    uri
}

/// The URI of a resource one segment below another.
pub open spec fn child_uri_of(parent: Seq<char>, name: Seq<char>) -> Seq<char> {
    parent + seq!['/'] + percent_encoded(name)
}

/// The URI of a resource is that of its parent with its own name behind.
pub proof fn lemma_uri_of_child(filetype: Seq<char>, segments: Seq<Seq<char>>, name: Seq<char>)
    ensures
        uri_of(filetype, segments.push(name)) == child_uri_of(uri_of(filetype, segments), name),
{
    let longer = segments.push(name);
    assert(longer.drop_last() =~= segments);
    assert(longer.last() == name);
    let head = "/files/"@ + percent_encoded(filetype);
    assert(head + (encoded_path(segments) + seq!['/'] + percent_encoded(name)) =~= head
        + encoded_path(segments) + seq!['/'] + percent_encoded(name));
}

/// Builds the URI of a resource one segment below another.
pub fn child_uri(parent: &str, name: &str) -> (uri: String)
    ensures
        uri@ == child_uri_of(parent@, name@),
{
    let mut uri = String::from_str(parent);
    proof {
        reveal_strlit("/");
        assert("/"@ =~= seq!['/']);
    }
    uri.append("/");
    uri.append(percent_encode(name).as_str());
    uri
}

} // verus!
