//! Report rendering: sorting the aggregation, formatting per-entry lines with
//! relative paths, binary-table sizes and quota percentages, and marking the
//! two largest entries.

use vstd::prelude::*;
use vstd::arithmetic::power::pow;
use crate::aggregate::{AggregatedEntry, Aggregation, spec_is_path_prefix};
use crate::datasize::{
    chosen_index, dec_str, fixed_str, fixed_string, pad0, round_div, suffix_of, u128_to_string,
    pad0_string, Datasize, DatasizeFormat,
};

verus! {

/// What a reported path is at render time, as the filesystem answers it.
#[derive(Copy, Clone, Eq, PartialEq, Debug, Structural)]
pub enum EntryKind {
    Dir,
    File,
    Sym,
    Unknown,
}

/// Ascending order by aggregated byte size.
pub open spec fn sorted_by_size(s: Seq<AggregatedEntry>) -> bool {
    forall|i: int, j: int|
        0 <= i < j < s.len() ==> (#[trigger] s[i]).size <= (#[trigger] s[j]).size
}

impl Aggregation {
    /// The aggregated entries in ascending size order: the same entries, only
    /// rearranged.
    pub fn sorted_entries(self) -> (r: Vec<AggregatedEntry>)
        ensures
            sorted_by_size(r@),
            r@.to_multiset() == self.entries@.to_multiset(),
            r@.len() == self.entries@.len(),
    {
        broadcast use vstd::seq_lib::group_to_multiset_ensures;
        broadcast use vstd::multiset::group_multiset_axioms;

        let ghost orig = self.entries@;
        let mut src = self.entries;
        let mut out: Vec<AggregatedEntry> = Vec::new();
        proof {
            assert(out@.to_multiset().add(src@.to_multiset()) =~= orig.to_multiset());
        }
        while src.len() > 0
            invariant
                out@.to_multiset().add(src@.to_multiset()) =~= orig.to_multiset(),
                out@.len() + src@.len() == orig.len(),
                sorted_by_size(out@),
                forall|a: int, b: int|
                    0 <= a < out@.len() && 0 <= b < src@.len() ==> (#[trigger] out@[a]).size <= (
                    #[trigger] src@[b]).size,
            decreases src.len(),
        {
            let n = src.len();
            let mut mi: usize = 0;
            let mut k: usize = 1;
            while k < n
                invariant
                    0 <= mi < k <= n,
                    n == src@.len(),
                    forall|x: int| 0 <= x < k ==> src@[mi as int].size <= (#[trigger] src@[x]).size,
                decreases n - k,
            {
                if src[k].size < src[mi].size {
                    mi = k;
                }
                k = k + 1;
            }
            let ghost pre_src = src@;
            let ghost pre_out = out@;
            let e = src.remove(mi);
            proof {
                assert(e == pre_src[mi as int]);
                assert(pre_src.contains(pre_src[mi as int]));
                vstd::seq_lib::to_multiset_contains::<AggregatedEntry>(pre_src, e);
                vstd::seq_lib::to_multiset_remove::<AggregatedEntry>(pre_src, mi as int);
                assert(pre_src.to_multiset().count(e) > 0);
            }
            out.push(e);
            proof {
                vstd::seq_lib::to_multiset_build::<AggregatedEntry>(pre_out, e);
                assert(out@.to_multiset() =~= pre_out.to_multiset().insert(e));
                assert(src@.to_multiset() =~= pre_src.to_multiset().remove(e));
                assert(out@.to_multiset().add(src@.to_multiset()) =~= orig.to_multiset());
                assert forall|a: int, b: int|
                    0 <= a < out@.len() && 0 <= b < src@.len() implies (#[trigger] out@[a]).size
                    <= (#[trigger] src@[b]).size by {
                    assert(src@[b] == if b < mi { pre_src[b] } else { pre_src[b + 1] });
                }
            }
        }
        out
    }
}

/// The type marker printed in front of an entry.
pub open spec fn mark_of(kind: EntryKind) -> Seq<char> {
    match kind {
        EntryKind::Dir => seq!['d', 'i', 'r'],
        EntryKind::File => seq!['f', 'i', 'l', 'e'],
        EntryKind::Sym => seq!['s', 'y', 'm'],
        EntryKind::Unknown => seq!['?'],
    }
}

/// A path as displayed: relative to the scan root when one is given, whole
/// otherwise.
pub open spec fn display_path_of(path: Seq<char>, origin: Option<Seq<char>>) -> Seq<char> {
    match origin {
        Some(o) => if path.len() == o.len() {
            Seq::empty()
        } else {
            path.skip(o.len() as int + 1)
        },
        None => path,
    }
}

/// The displayed number for a byte count: binary table, two decimal places,
/// scaled by 100.
pub open spec fn size_number_of(v: nat) -> int {
    round_div(v as int * 100, pow(1024, chosen_index(v, 1024)))
}

/// The quota percentage of a byte count, in thousandths of a percent.
pub open spec fn percent_millis_of(v: nat, quota: nat) -> int {
    round_div(v as int * 100000, quota as int)
}

/// The quota annotation: the percentage with three decimal places and a
/// percent sign, or nothing when no quota is set.
pub open spec fn usage_of(v: nat, quota_size: Option<Datasize>) -> Seq<char> {
    match quota_size {
        None => Seq::empty(),
        Some(q) => {
            let p = percent_millis_of(v, q.value as nat) as nat;
            dec_str(p / 1000) + seq!['.'] + pad0(p % 1000, 3) + seq!['%']
        },
    }
}

/// `n` spaces.
pub open spec fn spaces(n: nat) -> Seq<char>
    decreases n,
{
    if n == 0 {
        Seq::empty()
    } else {
        spaces((n - 1) as nat).push(' ')
    }
}

/// Left-aligned in a field of width `w`.
pub open spec fn pad_right(s: Seq<char>, w: nat) -> Seq<char> {
    if s.len() >= w {
        s
    } else {
        s + spaces((w - s.len()) as nat)
    }
}

/// Right-aligned in a field of width `w`.
pub open spec fn pad_left(s: Seq<char>, w: nat) -> Seq<char> {
    if s.len() >= w {
        s
    } else {
        spaces((w - s.len()) as nat) + s
    }
}

/// One rendered report line: marker, relative path, size in the binary table
/// at two decimals, and the quota annotation.
pub open spec fn line_of(
    kind: EntryKind,
    path: Seq<char>,
    v: nat,
    quota_size: Option<Datasize>,
    origin: Option<Seq<char>>,
) -> Seq<char> {
    pad_right(mark_of(kind), 5) + pad_right(display_path_of(path, origin), 15) + seq![
        ' ',
        ':',
        ' ',
    ] + pad_left(fixed_str(size_number_of(v) as nat, 2), 7) + pad_right(
        suffix_of(DatasizeFormat::Bin, chosen_index(v, 1024) as int),
        3,
    ) + seq![' '] + pad_left(usage_of(v, quota_size), 7)
}

/// The rendered string of ansi_term's bold-red style applied to a text: a
/// function of the text alone.
pub uninterp spec fn red_bold_of(s: Seq<char>) -> Seq<char>;

/// The rendered string of ansi_term's bold-yellow style applied to a text: a
/// function of the text alone.
pub uninterp spec fn yellow_bold_of(s: Seq<char>) -> Seq<char>;

/// Relies on ansi_term's Style::paint with the bold red style, whose output
/// depends only on the painted text.
#[verifier::external_body]
fn paint_red_bold(s: String) -> (r: String)
    ensures
        r@ == red_bold_of(s@),
{
    ansi_term::Color::Red.bold().paint(s).to_string()
}

/// Relies on ansi_term's Style::paint with the bold yellow style, whose
/// output depends only on the painted text.
#[verifier::external_body]
fn paint_yellow_bold(s: String) -> (r: String)
    ensures
        r@ == yellow_bold_of(s@),
{
    ansi_term::Color::Yellow.bold().paint(s).to_string()
}

/// How line `i` of `n` is emphasized: the largest entry is bold red, the
/// second largest bold yellow, the rest are plain.
pub open spec fn severity_painted(i: int, n: int, line: Seq<char>) -> Seq<char> {
    if i == n - 1 {
        red_bold_of(line)
    } else if i == n - 2 {
        yellow_bold_of(line)
    } else {
        line
    }
}

/// `n` spaces.
fn spaces_string(n: usize) -> (r: String)
    ensures
        r@ == spaces(n as nat),
{
    proof {
        reveal_strlit(" ");
    }
    let mut r = String::new();
    let mut i: usize = 0;
    while i < n
        invariant
            0 <= i <= n,
            r@ == spaces(i as nat),
        decreases n - i,
    {
        r.append(" ");
        proof {
            reveal_strlit(" ");
            assert(" "@ =~= seq![' ']);
            assert(r@ =~= spaces((i + 1) as nat));
        }
        i = i + 1;
    }
    r
}

/// Left-aligned in a field of width `w`.
fn pad_right_string(s: String, w: usize) -> (r: String)
    ensures
        r@ == pad_right(s@, w as nat),
{
    let l = s.as_str().unicode_len();
    if l >= w {
        s
    } else {
        let mut r = s;
        let sp = spaces_string(w - l);
        r.append(sp.as_str());
        r
    }
}

/// Right-aligned in a field of width `w`.
fn pad_left_string(s: String, w: usize) -> (r: String)
    ensures
        r@ == pad_left(s@, w as nat),
{
    let l = s.as_str().unicode_len();
    if l >= w {
        s
    } else {
        let mut r = spaces_string(w - l);
        r.append(s.as_str());
        r
    }
}

/// The quota annotation of one entry: percentage of the quota at three
/// decimal places.
pub fn usage_string(v: u64, quota_size: &Option<Datasize>) -> (r: String)
    requires
        match quota_size {
            Some(q) => q.value >= 1,
            None => true,
        },
    ensures
        r@ == usage_of(v as nat, *quota_size),
{
    match quota_size {
        None => String::new(),
        Some(q) => {
            let n: u128 = v as u128 * 100000;
            let d: u128 = q.value as u128;
            let p: u128 = (2 * n + d) / (2 * d);
            proof {
                crate::datasize::lemma_round_div_close(n as int, d as int);
            }
            let mut r = u128_to_string(p / 1000);
            proof {
                reveal_strlit(".");
                reveal_strlit("%");
            }
            r.append(".");
            let frac = pad0_string((p % 1000) as u64, 3);
            r.append(frac.as_str());
            r.append("%");
            proof {
                assert(r@ =~= usage_of(v as nat, *quota_size));
            }
            r
        },
    }
}

/// The display pieces of one reported entry: the path relative to the scan
/// root, the size number (scaled by 100) and unit of the binary table, and
/// the quota annotation.
pub fn get_path_detail(
    path: &String,
    size: Datasize,
    quota_size: &Option<Datasize>,
    origin: Option<&String>,
) -> (r: (String, u64, String, String))
    requires
        match origin {
            Some(o) => spec_is_path_prefix(o@, path@),
            None => true,
        },
        match quota_size {
            Some(q) => q.value >= 1,
            None => true,
        },
    ensures
        r.0@ == display_path_of(path@, match origin {
            Some(o) => Some(o@),
            None => None,
        }),
        r.1 == size_number_of(size.value as nat),
        r.2@ == suffix_of(DatasizeFormat::Bin, chosen_index(size.value as nat, 1024) as int),
        r.3@ == usage_of(size.value as nat, *quota_size),
{
    let (s, u) = size.with_unit_string(100, DatasizeFormat::Bin);
    let display_path: String = match origin {
        Some(o) => {
            let ol = o.as_str().unicode_len();
            let pl = path.as_str().unicode_len();
            if pl == ol {
                String::new()
            } else {
                let sub = path.as_str().substring_char(ol + 1, pl);
                proof {
                    assert(sub@ =~= path@.skip(o@.len() as int + 1));
                }
                sub.to_owned()
            }
        },
        None => {
            let c = path.clone();
            c
        },
    };
    let usage = usage_string(size.value, quota_size);
    (display_path, s, u, usage)
}

/// The type marker of an entry.
pub fn mark_str(kind: EntryKind) -> (r: &'static str)
    ensures
        r@ == mark_of(kind),
{
    match kind {
        EntryKind::Dir => {
            proof {
                reveal_strlit("dir");
            }
            assert("dir"@ =~= mark_of(EntryKind::Dir));
            "dir"
        },
        EntryKind::File => {
            proof {
                reveal_strlit("file");
            }
            assert("file"@ =~= mark_of(EntryKind::File));
            "file"
        },
        EntryKind::Sym => {
            proof {
                reveal_strlit("sym");
            }
            assert("sym"@ =~= mark_of(EntryKind::Sym));
            "sym"
        },
        EntryKind::Unknown => {
            proof {
                reveal_strlit("?");
            }
            assert("?"@ =~= mark_of(EntryKind::Unknown));
            "?"
        },
    }
}

/// One fully rendered report line for an entry of the given kind.
pub fn format_path_detail(
    kind: EntryKind,
    path: &String,
    size: Datasize,
    quota_size: &Option<Datasize>,
    origin: Option<&String>,
) -> (r: String)
    requires
        match origin {
            Some(o) => spec_is_path_prefix(o@, path@),
            None => true,
        },
        match quota_size {
            Some(q) => q.value >= 1,
            None => true,
        },
    ensures
        r@ == line_of(kind, path@, size.value as nat, *quota_size, match origin {
            Some(o) => Some(o@),
            None => None,
        }),
{
    let (display_path, s, u, usage) = get_path_detail(path, size, quota_size, origin);
    let mark = mark_str(kind).to_owned();
    let mut line = pad_right_string(mark, 5);
    let dp = pad_right_string(display_path, 15);
    line.append(dp.as_str());
    proof {
        reveal_strlit(" : ");
        reveal_strlit(" ");
    }
    line.append(" : ");
    let num = pad_left_string(fixed_string(s, 2), 7);
    line.append(num.as_str());
    let un = pad_right_string(u, 3);
    line.append(un.as_str());
    line.append(" ");
    let us = pad_left_string(usage, 7);
    line.append(us.as_str());
    proof {
        assert(" : "@ =~= seq![' ', ':', ' ']);
        assert(" "@ =~= seq![' ']);
        assert(line@ =~= line_of(kind, path@, size.value as nat, *quota_size, match origin {
            Some(o) => Some(o@),
            None => None,
        }));
    }
    line
}

/// All rendered report lines, in the given (ascending) entry order, the
/// largest entry painted bold red and the second largest bold yellow.
pub fn render_report(
    entries: &Vec<AggregatedEntry>,
    kinds: &Vec<EntryKind>,
    quota_size: &Option<Datasize>,
    origin: &String,
) -> (r: Vec<String>)
    requires
        entries@.len() == kinds@.len(),
        forall|i: int|
            0 <= i < entries@.len() ==> spec_is_path_prefix(
                origin@,
                (#[trigger] entries@[i]).path@,
            ),
        match quota_size {
            Some(q) => q.value >= 1,
            None => true,
        },
    ensures
        r@.len() == entries@.len(),
        forall|i: int|
            0 <= i < entries@.len() ==> (#[trigger] r@[i])@ == severity_painted(
                i,
                entries@.len() as int,
                line_of(
                    kinds@[i],
                    entries@[i].path@,
                    entries@[i].size as nat,
                    *quota_size,
                    Some(origin@),
                ),
            ),
{
    let n = entries.len();
    let mut lines: Vec<String> = Vec::new();
    let mut i: usize = 0;
    while i < n
        invariant
            0 <= i <= n,
            n == entries@.len(),
            entries@.len() == kinds@.len(),
            forall|k: int|
                0 <= k < entries@.len() ==> spec_is_path_prefix(
                    origin@,
                    (#[trigger] entries@[k]).path@,
                ),
            match quota_size {
                Some(q) => q.value >= 1,
                None => true,
            },
            lines@.len() == i,
            forall|k: int|
                0 <= k < i ==> (#[trigger] lines@[k])@ == severity_painted(
                    k,
                    n as int,
                    line_of(
                        kinds@[k],
                        entries@[k].path@,
                        entries@[k].size as nat,
                        *quota_size,
                        Some(origin@),
                    ),
                ),
        decreases n - i,
    {
        let line = format_path_detail(
            kinds[i],
            &entries[i].path,
            Datasize::new(entries[i].size),
            quota_size,
            Some(origin),
        );
        let painted: String = if i == n - 1 {
            paint_red_bold(line)
        } else if n >= 2 && i == n - 2 {
            paint_yellow_bold(line)
        } else {
            line
        };
        lines.push(painted);
        i = i + 1;
    }
    lines
}

} // verus!
