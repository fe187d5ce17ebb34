//! What the proxy publishes when it runs as a Start9 service: a Quick
//! Connect URL for each user, and the credentials in a Quick Connect URL.
use vstd::prelude::*;

verus! {

/// A property that the service shows to its owner.
#[derive(Debug)]
pub struct Property<T> {
    pub name: String,
    pub value: T,
    pub description: Option<String>,
    pub copyable: bool,
    pub qr: bool,
}

/// The properties that the service publishes.
#[derive(Debug)]
pub struct Properties {
    pub version: u8,
    pub data: (Property<Vec<Property<String>>>,),
}

/// The Quick Connect URL of a user, for the proxy's onion address.
pub open spec fn quick_connect_url(name: Seq<char>, password: Seq<char>, tor_addr: Seq<char>) -> Seq<char> {
    "btcstandup://"@ + name + ":"@ + password + "@"@ + tor_addr + ":8332/"@
}

/// The property of one user's Quick Connect URL.
pub open spec fn is_url_property(p: Property<String>, name: Seq<char>, password: Seq<char>, tor_addr: Seq<char>) -> bool {
    &&& p.name@ == name
    &&& p.value@ == quick_connect_url(name, password, tor_addr)
    &&& p.description matches Some(d) && d@ == "Quick Connect URL for "@ + name
    &&& p.copyable
    &&& p.qr
}

/// The properties for the given users (name and password each), in their
/// order, and the proxy's onion address.
pub fn quick_connect_properties(users: &Vec<(String, String)>, tor_addr: &str) -> (res: Properties)
    ensures
        res.version == 1,
        res.data.0.name@ == "Quick Connect URLs"@,
        res.data.0.description matches Some(d) && d@ == "Quick Connect URLs for each user"@,
        !res.data.0.copyable,
        !res.data.0.qr,
        res.data.0.value@.len() == users@.len(),
        forall|i: int|
            0 <= i < users@.len() ==> is_url_property(
                #[trigger] res.data.0.value@[i],
                users@[i].0@,
                users@[i].1@,
                tor_addr@,
            ),
{
    let mut urls: Vec<Property<String>> = Vec::new();
    let n = users.len();
    let mut i: usize = 0;
    while i < n
        invariant
            n == users@.len(),
            i <= n,
            urls@.len() == i,
            forall|j: int| 0 <= j < i ==> is_url_property(#[trigger] urls@[j], users@[j].0@, users@[j].1@, tor_addr@),
        decreases n - i,
    {
        let name = users[i].0.as_str();
        let password = users[i].1.as_str();
        let value = String::from_str("btcstandup://").concat(name).concat(":").concat(password).concat("@").concat(
            tor_addr,
        ).concat(":8332/");
        let description = String::from_str("Quick Connect URL for ").concat(name);
        proof {
            assert(value@ =~= quick_connect_url(name@, password@, tor_addr@));
            assert(description@ =~= "Quick Connect URL for "@ + name@);
        }
        urls.push(Property { name: name.to_owned(), value, description: Some(description), copyable: true, qr: true });
        i = i + 1;
    }
    Properties {
        version: 1,
        data: (
            Property {
                name: String::from_str("Quick Connect URLs"),
                value: urls,
                description: Some(String::from_str("Quick Connect URLs for each user")),
                copyable: false,
                qr: false,
            },
        ),
    }
}

/// Whether a character separates the user from the password, or the
/// credentials from the host, in the authority of a URL.
pub open spec fn is_separator(c: char) -> bool {
    c == ':' || c == '@'
}

/// The text up to the first separator.
pub open spec fn until_separator(text: Seq<char>) -> Seq<char>
    decreases text.len(),
{
    if text.len() == 0 {
        text
    } else if is_separator(text[0]) {
        seq![]
    } else {
        seq![text[0]] + until_separator(text.drop_first())
    }
}

proof fn lemma_until_separator(text: Seq<char>, k: int)
    requires
        0 <= k <= text.len(),
        forall|j: int| 0 <= j < k ==> !is_separator(text[j]),
        k == text.len() || is_separator(text[k]),
    ensures
        until_separator(text) == text.take(k),
    decreases text.len(),
{
    if text.len() > 0 && k > 0 {
        lemma_until_separator(text.drop_first(), k - 1);
        assert(seq![text[0]] + text.drop_first().take(k - 1) =~= text.take(k));
    } else if text.len() > 0 {
        assert(text.take(0) =~= seq![]);
    } else {
        assert(text.take(k) =~= text);
    }
}

fn find_separator(text: &str, from: usize, len: usize) -> (res: usize)
    requires
        len == text@.len(),
        from <= len,
    ensures
        from <= res <= len,
        forall|j: int| from <= j < res ==> !is_separator(text@[j]),
        res == len || is_separator(text@[res as int]),
{
    let mut i = from;
    while i < len
        invariant
            from <= i <= len,
            len == text@.len(),
            forall|j: int| from <= j < i ==> !is_separator(text@[j]),
        decreases len - i,
    {
        let c = text.get_char(i);
        if c == ':' || c == '@' {
            return i;
        }
        i = i + 1;
    }
    i
}

/// The user and the password in the authority of a Quick Connect URL
/// (`user:password@host:port`): the user is the text before the first
/// separator, the password the text between it and the next one.
pub fn quick_connect_credentials(authority: &str) -> (res: (String, Option<String>))
    ensures
        res.0@ == until_separator(authority@),
        until_separator(authority@).len() < authority@.len() ==> (res.1 matches Some(p) && p@ == until_separator(
            authority@.skip(until_separator(authority@).len() as int + 1),
        )),
        until_separator(authority@).len() == authority@.len() ==> res.1 is None,
{
    let len = authority.unicode_len();
    let k = find_separator(authority, 0, len);
    proof {
        lemma_until_separator(authority@, k as int);
    }
    let user = authority.substring_char(0, k).to_owned();
    if k == len {
        return (user, None);
    }
    let k2 = find_separator(authority, k + 1, len);
    proof {
        let rest = authority@.skip(k + 1);
        assert forall|j: int| 0 <= j < k2 - k - 1 implies !is_separator(rest[j]) by {
            assert(rest[j] == authority@[j + k + 1]);
        }
        lemma_until_separator(rest, k2 - k - 1);
        assert(rest.take(k2 - k - 1) =~= authority@.subrange(k + 1, k2 as int));
    }
    let password = authority.substring_char(k + 1, k2).to_owned();
    (user, Some(password))
}

} // verus!
