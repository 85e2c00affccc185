//! Decisions around the printing subsystem: judging the output of the
//! job-cancel command, selecting which stored files are listed, and shaping
//! the queue reports. The commands themselves are executed outside the
//! library; only their text comes through here.

use crate::text::{
    copy_range, parse_i64_chars, parse_i64_spec, string_to_chars, trim_chars, trim_spec,
};
use vstd::prelude::*;
use vstd::string::*;

verus! {

/// Judges what the job-cancel command printed: output shorter than three
/// characters is success, anything else is reported as the diagnostic.
pub fn cancel_verdict(output: &String) -> (r: Result<String, String>)
    ensures
        output@.len() < 3 ==> r is Ok && r->Ok_0@ == "Ok"@,
        output@.len() >= 3 ==> r is Err && r->Err_0@ == "Error on cancel: "@ + output@,
{
    if output.as_str().unicode_len() < 3 {
        Ok("Ok".to_owned())
    } else {
        let mut e = "Error on cancel: ".to_owned();
        e.append(output.as_str());
        Err(e)
    }
}

/// The queue report, headed by the name of the status command.
pub fn lpstat_report(output: &String) -> (r: String)
    ensures
        r@ == "lpstat:\n"@ + output@,
{
    let mut s = "lpstat:\n".to_owned();
    s.append(output.as_str());
    s
}

/// The printer-list report, headed by the listing command.
pub fn printers_report(output: &String) -> (r: String)
    ensures
        r@ == "lpstat -p:\n"@ + output@,
{
    let mut s = "lpstat -p:\n".to_owned();
    s.append(output.as_str());
    s
}

/// Position of the last dot of a name, if any.
pub open spec fn last_dot_at(s: Seq<char>) -> Option<int>
    decreases s.len(),
{
    if s.len() == 0 {
        None
    } else if s.last() == '.' {
        Some(s.len() - 1)
    } else {
        last_dot_at(s.drop_last())
    }
}

/// The extension of a filename: what follows its last dot, empty when it has
/// none.
pub open spec fn extension_spec(s: Seq<char>) -> Seq<char> {
    match last_dot_at(s) {
        None => Seq::<char>::empty(),
        Some(k) => s.subrange(k + 1, s.len() as int),
    }
}

/// A name is listed when its extension is `pdf` or reads as a requester
/// identity (the two shapes of content-addressed names).
pub open spec fn is_listed_spec(s: Seq<char>) -> bool {
    extension_spec(s) == seq!['p', 'd', 'f'] || parse_i64_spec(trim_spec(extension_spec(s)))
        is Some
}

proof fn lemma_last_dot_props(s: Seq<char>)
    ensures
        match last_dot_at(s) {
            Some(k) => 0 <= k < s.len() && s[k] == '.' && forall|j: int|
                k < j < s.len() ==> #[trigger] s[j] != '.',
            None => forall|j: int| 0 <= j < s.len() ==> #[trigger] s[j] != '.',
        },
    decreases s.len(),
{
    if s.len() == 0 {
    } else if s.last() == '.' {
    } else {
        lemma_last_dot_props(s.drop_last());
        match last_dot_at(s.drop_last()) {
            Some(k) => {
                assert forall|j: int| k < j < s.len() implies #[trigger] s[j] != '.' by {
                    if j < s.len() - 1 {
                        assert(s[j] == s.drop_last()[j]);
                    }
                }
            },
            None => {
                assert forall|j: int| 0 <= j < s.len() implies #[trigger] s[j] != '.' by {
                    if j < s.len() - 1 {
                        assert(s[j] == s.drop_last()[j]);
                    }
                }
            },
        }
    }
}

/// Index of the last dot, scanning from the end.
fn find_last_dot(v: &Vec<char>) -> (r: Option<usize>)
    ensures
        match r {
            Some(k) => k < v@.len() && last_dot_at(v@) == Some(k as int),
            None => last_dot_at(v@) is None,
        },
{
    let mut e: usize = v.len();
    proof {
        assert(v@.subrange(0, e as int) =~= v@);
    }
    while e > 0
        invariant
            0 <= e <= v@.len(),
            last_dot_at(v@) == last_dot_at(v@.subrange(0, e as int)),
        decreases e,
    {
        proof {
            let cur = v@.subrange(0, e as int);
            assert(cur.last() == v@[e - 1]);
            assert(cur.drop_last() =~= v@.subrange(0, e - 1));
        }
        if v[e - 1] == '.' {
            return Some(e - 1);
        }
        e = e - 1;
    }
    proof {
        assert(v@.subrange(0, 0).len() == 0);
    }
    None
}

/// Whether a stored file's name is listed, exactly as `is_listed_spec` says.
pub fn is_listed_file(name: &String) -> (r: bool)
    ensures
        r == is_listed_spec(name@),
{
    let v = string_to_chars(name.as_str());
    let n: usize = v.len();
    let dot = find_last_dot(&v);
    let ext: Vec<char> = match dot {
        None => Vec::new(),
        Some(k) => {
            assert(k < n);
            copy_range(&v, k + 1, n)
        },
    };
    proof {
        lemma_last_dot_props(v@);
        assert(ext@ == extension_spec(name@));
    }
    let is_pdf = ext.len() == 3 && ext[0] == 'p' && ext[1] == 'd' && ext[2] == 'f';
    proof {
        if is_pdf {
            assert(ext@ =~= seq!['p', 'd', 'f']);
        } else if ext@ == seq!['p', 'd', 'f'] {
            assert(ext@[0] == 'p' && ext@[1] == 'd' && ext@[2] == 'f');
        }
    }
    if is_pdf {
        return true;
    }
    let t = trim_chars(&ext);
    match parse_i64_chars(&t) {
        Some(_) => true,
        None => false,
    }
}

/// The lines of the file listing: one per listed name, in order.
pub open spec fn listing_lines(names: Seq<Seq<char>>) -> Seq<char>
    decreases names.len(),
{
    if names.len() == 0 {
        Seq::<char>::empty()
    } else {
        (if is_listed_spec(names[0]) {
            seq!['\n'] + names[0]
        } else {
            Seq::<char>::empty()
        }) + listing_lines(names.drop_first())
    }
}

proof fn lemma_listing_lines_append(a: Seq<Seq<char>>, b: Seq<Seq<char>>)
    ensures
        listing_lines(a + b) == listing_lines(a) + listing_lines(b),
    decreases a.len(),
{
    if a.len() == 0 {
        assert(a + b =~= b);
        assert(listing_lines(a) + listing_lines(b) =~= listing_lines(b));
    } else {
        lemma_listing_lines_append(a.drop_first(), b);
        assert((a + b).drop_first() =~= a.drop_first() + b);
        assert((a + b)[0] == a[0]);
        let h: Seq<char> = if is_listed_spec(a[0]) {
            seq!['\n'] + a[0]
        } else {
            Seq::<char>::empty()
        };
        assert(h + (listing_lines(a.drop_first()) + listing_lines(b)) =~= (h + listing_lines(
            a.drop_first(),
        )) + listing_lines(b));
    }
}

/// The report of stored files ready for printing or sending: a heading, then
/// every listed name on its own line, in the order given.
pub fn files_report(names: &Vec<String>) -> (r: String)
    ensures
        r@ == "Files:"@ + listing_lines(Seq::new(names@.len(), |i: int| names@[i]@)),
{
    let ghost views = Seq::new(names@.len(), |i: int| names@[i]@);
    let mut s = "Files:".to_owned();
    let n: usize = names.len();
    let mut i: usize = 0;
    proof {
        assert(listing_lines(views.subrange(0, 0)) =~= Seq::<char>::empty());
        assert(s@ =~= "Files:"@ + listing_lines(views.subrange(0, 0)));
    }
    while i < n
        invariant
            0 <= i <= n,
            n == names@.len(),
            views == Seq::new(names@.len(), |j: int| names@[j]@),
            s@ == "Files:"@ + listing_lines(views.subrange(0, i as int)),
        decreases n - i,
    {
        if is_listed_file(&names[i]) {
            s.append("\n");
            proof {
                reveal_strlit("\n");
                assert("\n"@ =~= seq!['\n']);
            }
            s.append(names[i].as_str());
        }
        proof {
            let pre = views.subrange(0, i as int);
            let post = views.subrange(0, i + 1);
            assert(post =~= pre + seq![views[i as int]]);
            lemma_listing_lines_append(pre, seq![views[i as int]]);
            let one = seq![views[i as int]];
            assert(one.drop_first() =~= Seq::<Seq<char>>::empty());
            assert(listing_lines(one.drop_first()) == Seq::<char>::empty());
            let h: Seq<char> = if is_listed_spec(views[i as int]) {
                seq!['\n'] + views[i as int]
            } else {
                Seq::<char>::empty()
            };
            assert(listing_lines(one) =~= h);
            assert(s@ =~= "Files:"@ + listing_lines(post));
        }
        i = i + 1;
    }
    proof {
        assert(views.subrange(0, n as int) =~= views);
    }
    s
}

} // verus!
