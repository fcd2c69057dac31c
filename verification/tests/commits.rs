use giv::backend::{RawCommit, RawSignature};
use giv::commit::{make_node, make_parent, make_signature, message_detail, message_title_line, summarize};
use giv::model::{RevisionRef, Signature};

fn signature(name: &str, email: &str, seconds: i64, offset: i32) -> RawSignature {
    RawSignature { name: name.to_string(), email: email.to_string(), seconds, offset }
}

fn commit(id: &str, message: &[u8], parents: &[&str]) -> RawCommit {
    RawCommit {
        id: id.to_string(),
        short_id: id[..4].to_string(),
        author: signature("Ada", "ada@example.org", 1660797906, 28800),
        committer: signature("Bob", "bob@example.org", 1660800000, 0),
        message: message.to_vec(),
        parents: parents.iter().map(|p| p.to_string()).collect(),
    }
}

#[test]
fn format_with_time_joins_name_address_and_time() {
    let s = Signature {
        author_name: "Ada".to_string(),
        author_email: "ada@example.org".to_string(),
        time: "2022-08-18 12:45:06 +0800".to_string(),
    };
    assert_eq!(s.format_with_time(), "Ada <ada@example.org> 2022-08-18 12:45:06 +0800");
    assert_eq!(s.to_text(), "Ada <ada@example.org>");
}

#[test]
fn empty_signature_formats_to_its_brackets() {
    let s = Signature::empty();
    assert_eq!(s.format_with_time(), " <> ");
    assert_eq!(s.to_text(), " <>");
}

#[test]
fn signature_is_trimmed_and_dated_in_iso_8601() {
    let s = make_signature(&signature(" Ada \n", "\tada@example.org ", 1660797906, 28800)).unwrap();
    assert_eq!(s.author_name, "Ada");
    assert_eq!(s.author_email, "ada@example.org");
    assert_eq!(s.time, "2022-08-18 12:45:06 +0800");
}

#[test]
fn time_is_shown_at_the_signers_offset() {
    let utc = make_signature(&signature("a", "b", 0, 0)).unwrap();
    assert_eq!(utc.time, "1970-01-01 00:00:00 +0000");
    let west = make_signature(&signature("a", "b", 0, -3600)).unwrap();
    assert_eq!(west.time, "1969-12-31 23:00:00 -0100");
}

#[test]
fn time_out_of_range_is_an_error() {
    let err = make_signature(&signature("a", "b", i64::MAX, 0)).unwrap_err();
    assert!(!err.message.is_empty());
    let err = make_signature(&signature("a", "b", 0, i32::MAX)).unwrap_err();
    assert!(!err.message.is_empty());
}

#[test]
fn title_is_what_stands_before_the_first_blank_line() {
    assert_eq!(message_title_line(&b"Add the parser\n\nIt reads tokens.\n".to_vec()), "Add the parser");
    assert_eq!(message_title_line(&b"  Only a title  \n".to_vec()), "Only a title");
    assert_eq!(message_title_line(&b"".to_vec()), "");
}

#[test]
fn body_is_what_follows_the_title_without_trailers() {
    assert_eq!(
        message_detail(&b"Add the parser\n\nIt reads tokens.\nAnd more.\n".to_vec()),
        "It reads tokens.\nAnd more.\n"
    );
    assert_eq!(message_detail(&b"Only a title\n".to_vec()), "");
    let signed = message_detail(&b"Title\n\nBody.\n\nSigned-off-by: Ada <ada@example.org>\n".to_vec());
    assert!(signed.starts_with("Body."));
    assert!(!signed.contains("Signed-off-by"));
}

#[test]
fn summary_holds_identifier_title_and_author() {
    let s = summarize(&commit("0123456789abcdef", b"  Fix it \n\nDetails.\n", &[])).unwrap();
    assert_eq!(
        s.rev,
        RevisionRef::Commit { id: "0123456789abcdef".to_string(), short_id: "0123".to_string() }
    );
    assert_eq!(s.title, "Fix it");
    assert_eq!(s.signature.author_name, "Ada");
    assert_eq!(s.signature.time, "2022-08-18 12:45:06 +0800");
}

#[test]
fn summary_fails_where_the_authors_time_cannot_be_shown() {
    let mut c = commit("0123456789abcdef", b"t\n", &[]);
    c.author.seconds = i64::MIN;
    assert!(summarize(&c).is_err());
    assert!(make_node(&c).is_err());
}

#[test]
fn node_is_ordered_by_the_time_of_committing() {
    let n = make_node(&commit("0123456789abcdef", b"t\n", &["aaaa1111", "bbbb2222"])).unwrap();
    assert_eq!(n.id, "0123456789abcdef");
    assert_eq!(n.time, 1660800000);
    assert_eq!(n.parents, vec!["aaaa1111".to_string(), "bbbb2222".to_string()]);
    assert_eq!(n.summary.title, "t");
}

#[test]
fn parent_is_named_by_identifier_and_title() {
    let p = make_parent(&commit("0123456789abcdef", b" Parent title\n\nbody\n", &[]));
    assert_eq!(p.id, "0123456789abcdef");
    assert_eq!(p.short_id, "0123");
    assert_eq!(p.title, "Parent title");
}

#[test]
fn title_of_several_lines_is_put_on_one() {
    assert_eq!(message_title_line(&b"Two\nlines\n\nbody\n".to_vec()), "Two lines");
    let s = summarize(&commit("0123456789abcdef", b"Wrapped\nsubject\n\nbody\n", &[])).unwrap();
    assert_eq!(s.title, "Wrapped subject");
}
