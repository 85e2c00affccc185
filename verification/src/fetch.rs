//! Content-addressed storage of fetched documents: the filename is the
//! fingerprint of the exact bytes received, a discriminator (the requester,
//! or a fixed suffix), and the `pdf` extension. Resolving a fetch outcome
//! classifies failures and never lets a timed-out transfer pass as success.

use crate::hash::{hash_data, hex_of, lemma_hex_injective, lemma_hex_len, sha1_of};
use crate::text::{
    i64_dec_spec, i64_to_string, is_digit_char, lemma_dec_digits_val, lemma_i64_dec_injective,
    push_char,
};
use vstd::prelude::*;
use vstd::string::*;

verus! {

/// Why a fetch failed: the transport broke, the time budget ran out, or the
/// local write failed.
#[derive(Debug)]
pub enum FetchError {
    Network(String),
    Timeout,
    Storage(String),
}

/// What the transport handed back: the complete bytes, nothing within the
/// time budget, or a transport failure.
#[derive(Debug)]
pub enum FetchOutcome {
    Completed(Vec<u8>),
    TimedOut,
    TransportFailed(String),
}

/// A document ready to be written to local storage.
#[derive(Debug)]
pub struct StoredFile {
    pub filename: String,
    pub bytes: Vec<u8>,
}

/// The extension naming the requester, or `pdf` when there is none.
pub open spec fn ext_text(user_id: Option<i64>) -> Seq<char> {
    match user_id {
        Some(id) => i64_dec_spec(id as int),
        None => seq!['p', 'd', 'f'],
    }
}

/// The stored name of downloaded content: fingerprint, requester
/// discriminator, `pdf` suffix.
pub open spec fn download_name_spec(data: Seq<u8>, user_id: Option<i64>) -> Seq<char> {
    hex_of(sha1_of(data)) + seq!['.'] + ext_text(user_id) + seq!['.', 'p', 'd', 'f']
}

/// The stored name of a mail attachment: fingerprint and `pdf` suffix.
pub open spec fn mail_name_spec(data: Seq<u8>) -> Seq<char> {
    hex_of(sha1_of(data)) + seq!['.', 'p', 'd', 'f']
}

/// The filename under which downloaded content is stored.
pub fn download_filename(data: &Vec<u8>, user_id: Option<i64>) -> (r: String)
    ensures
        r@ == download_name_spec(data@, user_id),
{
    let mut s = hash_data(data);
    push_char(&mut s, '.');
    match user_id {
        Some(id) => {
            let t = i64_to_string(id);
            s.append(t.as_str());
        },
        None => {
            s.append("pdf");
            proof {
                reveal_strlit("pdf");
                assert("pdf"@ =~= seq!['p', 'd', 'f']);
            }
        },
    }
    s.append(".pdf");
    proof {
        reveal_strlit(".pdf");
        assert(".pdf"@ =~= seq!['.', 'p', 'd', 'f']);
        assert(s@ =~= download_name_spec(data@, user_id));
    }
    s
}

/// The filename under which a mail attachment is stored.
pub fn mail_attachment_filename(data: &Vec<u8>) -> (r: String)
    ensures
        r@ == mail_name_spec(data@),
{
    let mut s = hash_data(data);
    s.append(".pdf");
    proof {
        reveal_strlit(".pdf");
        assert(".pdf"@ =~= seq!['.', 'p', 'd', 'f']);
        assert(s@ =~= mail_name_spec(data@));
    }
    s
}

/// Turns a transport outcome into a storable document or the exact failure:
/// completed bytes get their content-addressed name; running out of the time
/// budget is a timeout failure, never a hang or a success; a transport
/// failure carries its diagnostic.
pub fn resolve_fetch(outcome: FetchOutcome, user_id: Option<i64>) -> (r: Result<
    StoredFile,
    FetchError,
>)
    ensures
        match outcome {
            FetchOutcome::Completed(b) => match r {
                Ok(f) => f.filename@ == download_name_spec(b@, user_id) && f.bytes@ == b@,
                Err(_) => false,
            },
            FetchOutcome::TimedOut => r is Err && r->Err_0 is Timeout,
            FetchOutcome::TransportFailed(e) => match r {
                Ok(_) => false,
                Err(err) => err is Network && err->Network_0@ == e@,
            },
        },
{
    match outcome {
        FetchOutcome::Completed(bytes) => {
            let filename = download_filename(&bytes, user_id);
            Ok(StoredFile { filename, bytes })
        },
        FetchOutcome::TimedOut => Err(FetchError::Timeout),
        FetchOutcome::TransportFailed(e) => Err(FetchError::Network(e)),
    }
}

/// Fingerprinting is deterministic: the same bytes under the same
/// discriminator always store under the same name.
pub proof fn lemma_download_name_deterministic(
    b1: Seq<u8>,
    b2: Seq<u8>,
    u1: Option<i64>,
    u2: Option<i64>,
)
    requires
        b1 == b2,
        u1 == u2,
    ensures
        download_name_spec(b1, u1) == download_name_spec(b2, u2),
{
}

/// Discriminator texts of distinct discriminators differ.
proof fn lemma_ext_text_injective(u1: Option<i64>, u2: Option<i64>)
    requires
        ext_text(u1) == ext_text(u2),
    ensures
        u1 == u2,
{
    match (u1, u2) {
        (Some(a), Some(b)) => {
            lemma_i64_dec_injective(a, b);
        },
        (Some(a), None) => {
            lemma_first_not_p(a);
        },
        (None, Some(b)) => {
            lemma_first_not_p(b);
        },
        (None, None) => {},
    }
}

/// A decimal representation never starts with the letter `p`.
proof fn lemma_first_not_p(a: i64)
    ensures
        i64_dec_spec(a as int).len() > 0,
        i64_dec_spec(a as int)[0] != 'p',
{
    if a >= 0 {
        lemma_dec_digits_val(a as nat);
        assert(is_digit_char(i64_dec_spec(a as int)[0]));
    } else {
        lemma_dec_digits_val((-(a as int)) as nat);
        assert(i64_dec_spec(a as int)[0] == '-');
    }
}

/// Two stored names collide only when the fingerprints and the
/// discriminators both agree: distinct requesters never share a name, and
/// distinct content shares a name only on a digest collision.
pub proof fn lemma_download_name_collision(
    b1: Seq<u8>,
    u1: Option<i64>,
    b2: Seq<u8>,
    u2: Option<i64>,
)
    requires
        sha1_of(b1).len() == sha1_of(b2).len(),
        download_name_spec(b1, u1) == download_name_spec(b2, u2),
    ensures
        sha1_of(b1) == sha1_of(b2),
        u1 == u2,
{
    let h1 = hex_of(sha1_of(b1));
    let h2 = hex_of(sha1_of(b2));
    lemma_hex_len(sha1_of(b1));
    lemma_hex_len(sha1_of(b2));
    let s = download_name_spec(b1, u1);
    let hl = h1.len() as int;
    assert(s.subrange(0, hl) =~= h1);
    assert(s.subrange(0, hl) =~= h2);
    lemma_hex_injective(sha1_of(b1), sha1_of(b2));
    let t1 = ext_text(u1);
    let t2 = ext_text(u2);
    assert(s.len() == hl + 1 + t1.len() + 4);
    assert(download_name_spec(b2, u2).len() == hl + 1 + t2.len() + 4);
    assert(t1.len() == t2.len());
    assert(t1 =~= s.subrange(hl + 1, hl + 1 + t1.len()));
    assert(t2 =~= s.subrange(hl + 1, hl + 1 + t2.len()));
    lemma_ext_text_injective(u1, u2);
}

/// Two mail-attachment names collide only on a digest collision.
pub proof fn lemma_mail_name_collision(b1: Seq<u8>, b2: Seq<u8>)
    requires
        sha1_of(b1).len() == sha1_of(b2).len(),
        mail_name_spec(b1) == mail_name_spec(b2),
    ensures
        sha1_of(b1) == sha1_of(b2),
{
    let h1 = hex_of(sha1_of(b1));
    let h2 = hex_of(sha1_of(b2));
    lemma_hex_len(sha1_of(b1));
    lemma_hex_len(sha1_of(b2));
    let s = mail_name_spec(b1);
    let hl = h1.len() as int;
    assert(s.subrange(0, hl) =~= h1);
    assert(s.subrange(0, hl) =~= h2);
    lemma_hex_injective(sha1_of(b1), sha1_of(b2));
}

} // verus!
