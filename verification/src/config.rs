//! The package configuration and its rendering as a TOML document: one
//! top-level `ip` key, then one regular (never inline) table per package,
//! keyed under `packages`, in the order the packages are listed.

use vstd::prelude::*;

verus! {

/// One registered package.
pub struct Packages {
    pub url: String,
}

/// The configuration document: a registry address and the named packages.
pub struct Config {
    pub ip: String,
    pub packages: Vec<(String, Packages)>,
}

/// Where a walk of the configuration document stands: at the root, directly
/// under the `packages` table, or anywhere else.
#[derive(Copy, Clone, Debug, Eq, PartialEq, Structural)]
pub enum VisitState {
    Root,
    Packages,
    Other,
}

/// The state a walk enters when it descends from `s` through `key`: only the
/// `packages` key at the root leads into the packages table, one level deep.
pub open spec fn spec_descend(s: VisitState, key: Seq<char>) -> VisitState {
    match s {
        VisitState::Root => if key == "packages"@ {
            VisitState::Packages
        } else {
            VisitState::Other
        },
        VisitState::Packages => VisitState::Other,
        VisitState::Other => VisitState::Other,
    }
}

/// Whether two strings hold the same characters.
fn str_eq(a: &str, b: &str) -> (r: bool)
    ensures
        r == (a@ == b@),
{
    let al = a.unicode_len();
    let bl = b.unicode_len();
    if al != bl {
        return false;
    }
    let mut i: usize = 0;
    while i < al
        invariant
            0 <= i <= al,
            al == a@.len(),
            bl == b@.len(),
            al == bl,
            forall|j: int| 0 <= j < i ==> a@[j] == b@[j],
        decreases al - i,
    {
        if a.get_char(i) != b.get_char(i) {
            return false;
        }
        i = i + 1;
    }
    proof {
        assert(a@ =~= b@);
    }
    true
}

impl VisitState {
    /// The next visit state, given the current state and the key descended
    /// through.
    pub fn descend(self, key: &str) -> (r: Self)
        ensures
            r == spec_descend(self, key@),
    {
        match self {
            VisitState::Root => {
                if str_eq(key, "packages") {
                    VisitState::Packages
                } else {
                    VisitState::Other
                }
            },
            VisitState::Packages => VisitState::Other,
            VisitState::Other => VisitState::Other,
        }
    }
}

/// The block a single package renders to: a regular `[packages.<name>]`
/// table holding its url.
pub open spec fn package_block(name: Seq<char>, p: Packages) -> Seq<char> {
    seq!['\n', '[', 'p', 'a', 'c', 'k', 'a', 'g', 'e', 's', '.'] + name + seq![
        ']',
        '\n',
        'u',
        'r',
        'l',
        ' ',
        '=',
        ' ',
        '"',
    ] + p.url@ + seq!['"', '\n']
}

/// The package tables, in listed order.
pub open spec fn packages_toml(pkgs: Seq<(String, Packages)>) -> Seq<char>
    decreases pkgs.len(),
{
    if pkgs.len() == 0 {
        Seq::empty()
    } else {
        packages_toml(pkgs.drop_last()) + package_block(pkgs.last().0@, pkgs.last().1)
    }
}

/// The whole rendered document: the `ip` key, then one regular table per
/// package.
pub open spec fn toml_of(c: Config) -> Seq<char> {
    seq!['i', 'p', ' ', '=', ' ', '"'] + c.ip@ + seq!['"', '\n'] + packages_toml(c.packages@)
}

/// Renders the configuration as its TOML document, every package as a
/// regular table.
pub fn serialize_config(conf: &Config) -> (r: String)
    ensures
        r@ == toml_of(*conf),
{
    proof {
        reveal_strlit("ip = \"");
        reveal_strlit("\"\n");
        reveal_strlit("\n[packages.");
        reveal_strlit("]\nurl = \"");
    }
    let mut r: String = "ip = \"".to_owned();
    r.append(conf.ip.as_str());
    r.append("\"\n");
    proof {
        assert(r@ =~= seq!['i', 'p', ' ', '=', ' ', '"'] + conf.ip@ + seq!['"', '\n']
            + packages_toml(conf.packages@.take(0int)));
    }
    let n = conf.packages.len();
    let mut i: usize = 0;
    while i < n
        invariant
            0 <= i <= n,
            n == conf.packages@.len(),
            r@ == seq!['i', 'p', ' ', '=', ' ', '"'] + conf.ip@ + seq!['"', '\n'] + packages_toml(
                conf.packages@.take(i as int),
            ),
        decreases n - i,
    {
        proof {
            reveal_strlit("\n[packages.");
            reveal_strlit("]\nurl = \"");
            reveal_strlit("\"\n");
        }
        r.append("\n[packages.");
        r.append(conf.packages[i].0.as_str());
        r.append("]\nurl = \"");
        r.append(conf.packages[i].1.url.as_str());
        r.append("\"\n");
        proof {
            assert(conf.packages@.take(i + 1).drop_last() =~= conf.packages@.take(i as int));
            assert(conf.packages@.take(i + 1).last() == conf.packages@[i as int]);
            assert(r@ =~= seq!['i', 'p', ' ', '=', ' ', '"'] + conf.ip@ + seq!['"', '\n']
                + packages_toml(conf.packages@.take(i + 1)));
        }
        i = i + 1;
    }
    proof {
        assert(conf.packages@.take(n as int) =~= conf.packages@);
    }
    r
}

impl Config {
    /// This configuration as its TOML document.
    pub fn toml(&self) -> (r: String)
        ensures
            r@ == toml_of(*self),
    {
        serialize_config(self)
    }
}

} // verus!
