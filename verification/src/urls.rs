//! Builders for the three feed archive locations, rooted at a caller-supplied
//! base address.
use vstd::prelude::*;
use vstd::string::StrSliceExecFns;
use vstd::string::StringExecFns;

verus! {

/// Appends a trailing slash to `url` unless one is already there.
pub fn normalize_base_url(url: String) -> (r: String)
    ensures
        url@.len() > 0 && url@.last() == '/' ==> r@ == url@,
        !(url@.len() > 0 && url@.last() == '/') ==> r@ == url@ + "/"@,
{
    let n = url.as_str().unicode_len();
    if n > 0 && url.as_str().get_char(n - 1) == '/' {
        url
    } else {
        proof {
            reveal_strlit("/");
        }
        url.concat("/")
    }
}

/// The master feed archive, `xmltv.zip` under the base address.
pub fn xmltv_url_all(base_url: &str) -> (r: String)
    ensures
        r@ == base_url@ + "xmltv.zip"@,
{
    String::from_str(base_url).concat("xmltv.zip")
}

/// The TNT feed archive, `xmltv_tnt.zip` under the base address.
pub fn xmltv_url_tnt(base_url: &str) -> (r: String)
    ensures
        r@ == base_url@ + "xmltv_tnt.zip"@,
{
    String::from_str(base_url).concat("xmltv_tnt.zip")
}

/// The FR feed archive, `xmltv_fr.zip` under the base address.
pub fn xmltv_url_fr(base_url: &str) -> (r: String)
    ensures
        r@ == base_url@ + "xmltv_fr.zip"@,
{
    String::from_str(base_url).concat("xmltv_fr.zip")
}

} // verus!
