//! Rendering of stored session cookies into the transport-ready credential
//! string sent with every lookup: `name=value` pairs joined by `;`. Reading
//! and parsing the persisted blob is the caller's I/O; this module owns the
//! rendering alone.

use vstd::prelude::*;
use vstd::string::StringExecFns;

use crate::text::push_char;

verus! {

/// One stored session cookie.
pub struct Cookie {
    pub name: String,
    pub value: String,
}

/// The `name=value` form of one cookie.
pub open spec fn cookie_pair(c: Cookie) -> Seq<char> {
    c.name@ + seq!['='] + c.value@
}

/// The credential string for a list of cookies: the pairs joined by `;`.
pub open spec fn cookie_header(cs: Seq<Cookie>) -> Seq<char>
    decreases cs.len(),
{
    if cs.len() == 0 {
        Seq::empty()
    } else if cs.len() == 1 {
        cookie_pair(cs[0])
    } else {
        cookie_header(cs.drop_last()) + seq![';'] + cookie_pair(cs.last())
    }
}

/// Joins the cookies into the credential header value sent with lookups.
pub fn render_cookie_header(cookies: &Vec<Cookie>) -> (r: String)
    ensures
        r@ == cookie_header(cookies@),
{
    let mut r = String::new();
    let mut i: usize = 0;
    proof {
        assert(cookies@.take(0) =~= Seq::<Cookie>::empty());
    }
    while i < cookies.len()
        invariant
            i <= cookies@.len(),
            r@ == cookie_header(cookies@.take(i as int)),
        decreases cookies@.len() - i,
    {
        if i > 0 {
            push_char(&mut r, ';');
        }
        let c = &cookies[i];
        r.append(c.name.as_str());
        push_char(&mut r, '=');
        r.append(c.value.as_str());
        proof {
            let pre = cookies@.take(i as int);
            let now = cookies@.take(i + 1 as int);
            assert(now.drop_last() =~= pre);
            assert(now.last() == cookies@[i as int]);
            if i == 0 {
                assert(now.len() == 1);
                assert(now[0] == cookies@[0]);
                assert(r@ =~= cookie_pair(cookies@[0]));
            } else {
                assert(r@ =~= cookie_header(pre) + seq![';'] + cookie_pair(cookies@[i as int]));
            }
        }
        i += 1;
    }
    proof {
        assert(cookies@.take(cookies@.len() as int) =~= cookies@);
    }
    r
}

} // verus!
