//! Names and countries of addresses.

use crate::ip::IpAddr;
use crate::ip_text::ip_of_text;
use crate::text::same;
use vstd::prelude::*;

verus! {

/// The address to look a name up for.
pub fn reverse_query(ip: &str) -> (r: Option<IpAddr>)
    ensures
        r == ip_of_text(ip@),
{
    IpAddr::parse(ip)
}

/// The name that was found for an address. A lookup that finds none gives the
/// address back.
pub fn reverse_dns(ip: &str, name: Option<String>) -> (r: Option<String>)
    ensures
        r == match name {
            Some(n) => if n@ == ip@ {
                None
            } else {
                Some(n)
            },
            None => None,
        },
{
    match name {
        Some(n) => {
            if same(n.as_str(), ip) {
                None
            } else {
                Some(n)
            }
        },
        None => None,
    }
}

/// The address to look a country up for, where there is a database.
pub fn country_query(loaded: bool, ip: &str) -> (r: Option<IpAddr>)
    ensures
        r == (if loaded {
            ip_of_text(ip@)
        } else {
            None
        }),
{
    if loaded {
        IpAddr::parse(ip)
    } else {
        None
    }
}

/// The English name among a country's names, each with its language.
pub open spec fn english(names: Seq<(String, String)>) -> Option<Seq<char>>
    decreases names.len(),
{
    if names.len() == 0 {
        None
    } else if names[0].0@ == "en"@ {
        Some(names[0].1@)
    } else {
        english(names.drop_first())
    }
}

/// The English name of the country that was found for an address.
pub fn geo_country(names: Option<Vec<(String, String)>>) -> (r: Option<String>)
    ensures
        match (names, r) {
            (Some(n), Some(s)) => english(n@) == Some(s@),
            (Some(n), None) => english(n@) is None,
            (None, r) => r is None,
        },
{
    match names {
        None => None,
        Some(n) => {
            let mut i: usize = 0;
            assert(n@.skip(0) =~= n@);
            while i < n.len()
                invariant
                    names == Some(n),
                    i <= n@.len(),
                    english(n@.skip(i as int)) == english(n@),
                decreases n@.len() - i,
            {
                assert(n@.skip(i as int).drop_first() =~= n@.skip(i + 1));
                if same(n[i].0.as_str(), "en") {
                    return Some(n[i].1.clone());
                }
                i += 1;
            }
            None
        },
    }
}

/// A country is shown by its first English name.
pub proof fn law_the_first_english_name_counts(
    before: Seq<(String, String)>,
    one: (String, String),
    after: Seq<(String, String)>,
)
    requires
        forall|i: int| 0 <= i < before.len() ==> (#[trigger] before[i]).0@ != "en"@,
        one.0@ == "en"@,
    ensures
        english(before + seq![one] + after) == Some(one.1@),
        english(before) is None,
    decreases before.len(),
{
    let all = before + seq![one] + after;
    if before.len() > 0 {
        let b = before.drop_first();
        assert forall|i: int| 0 <= i < b.len() implies (#[trigger] b[i]).0@ != "en"@ by {
            assert(b[i] == before[i + 1]);
        }
        assert(all[0] == before[0]);
        assert(before[0].0@ != "en"@);
        assert(all.drop_first() =~= b + seq![one] + after);
        law_the_first_english_name_counts(b, one, after);
    } else {
        assert(all[0] == one);
    }
}

} // verus!
