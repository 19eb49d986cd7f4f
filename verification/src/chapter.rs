//! Chapter anchors: the marks a host navigates by, their anchor texts and
//! the parser for the anchor a host hands back.
//!
//! An anchor reads `chapter<number>-<mark>`; the chapter part also accepts
//! a leading zero, and both parts ignore ASCII case.  Whatever follows a
//! second dash is ignored.

use vstd::prelude::*;

use vstd::string::{StrSliceExecFns, StringExecFns};

verus! {

/// One character matches another, ignoring ASCII case; `e` is the
/// lower-case reference.
pub open spec fn matches_ci(c: char, e: char) -> bool {
    c == e || (97 <= e as u32 <= 122 && c as u32 + 32 == e as u32)
}

/// `s` spells the lower-case reference `t`, ignoring ASCII case.
pub open spec fn spells_ci(s: Seq<char>, t: Seq<char>) -> bool {
    s.len() == t.len() && forall|i: int| 0 <= i < s.len() ==> matches_ci(s[i], #[trigger] t[i])
}

/// Marks of the first chapter.
#[derive(Debug, Clone, Copy, PartialEq, Eq, Structural)]
pub enum Chapter1Marks {
    First,
    Second,
}

/// Marks of the second chapter.
#[derive(Debug, Clone, Copy, PartialEq, Eq, Structural)]
pub enum Chapter2Marks {
    First,
}

/// A mark knows its anchor text and recognizes its spellings.
pub trait ChapterReading: Sized {
    /// The anchor text of this mark.
    spec fn spec_tag(&self) -> Seq<char>;

    /// `s` spells this mark, ignoring ASCII case.
    spec fn spells(&self, s: Seq<char>) -> bool;

    /// The anchor text of this mark.
    fn get_string(&self) -> (r: String)
        ensures
            r@ == self.spec_tag(),
    ;

    /// The mark that `s` spells, if any.
    fn read_str(s: &str) -> (r: Option<Self>)
        ensures
            match r {
                Some(m) => m.spells(s@),
                None => forall|m: Self| !(#[trigger] m.spells(s@)),
            },
    ;
}

impl ChapterReading for Chapter1Marks {
    open spec fn spec_tag(&self) -> Seq<char> {
        match self {
            Chapter1Marks::First => "chapter1-first"@,
            Chapter1Marks::Second => "chapter1-second"@,
        }
    }

    open spec fn spells(&self, s: Seq<char>) -> bool {
        match self {
            Chapter1Marks::First => spells_ci(s, "first"@),
            Chapter1Marks::Second => spells_ci(s, "second"@),
        }
    }

    fn get_string(&self) -> (r: String) {
        match self {
            Chapter1Marks::First => String::from_str("chapter1-first"),
            Chapter1Marks::Second => String::from_str("chapter1-second"),
        }
    }

    fn read_str(s: &str) -> (r: Option<Self>) {
        if str_spells_ci(s, "first") {
            Some(Chapter1Marks::First)
        } else if str_spells_ci(s, "second") {
            Some(Chapter1Marks::Second)
        } else {
            None
        }
    }
}

impl ChapterReading for Chapter2Marks {
    open spec fn spec_tag(&self) -> Seq<char> {
        "chapter2-first"@
    }

    open spec fn spells(&self, s: Seq<char>) -> bool {
        spells_ci(s, "first"@)
    }

    fn get_string(&self) -> (r: String) {
        String::from_str("chapter2-first")
    }

    fn read_str(s: &str) -> (r: Option<Self>) {
        if str_spells_ci(s, "first") {
            Some(Chapter2Marks::First)
        } else {
            None
        }
    }
}

/// Where a host's view is anchored.
#[derive(Debug, Clone, Copy, PartialEq, Eq, Structural)]
pub enum ChapterAnchor {
    Chapter1(Chapter1Marks),
    Chapter2(Chapter2Marks),
    Invalid,
}

impl Default for ChapterAnchor {
    fn default() -> (r: ChapterAnchor)
        ensures
            r == ChapterAnchor::Chapter1(Chapter1Marks::First),
    {
        ChapterAnchor::Chapter1(Chapter1Marks::First)
    }
}

impl ChapterAnchor {
    /// The anchor text, with its leading hash.
    pub open spec fn spec_tag(&self) -> Seq<char> {
        match self {
            ChapterAnchor::Chapter1(Chapter1Marks::First) => "#chapter1-first"@,
            ChapterAnchor::Chapter1(Chapter1Marks::Second) => "#chapter1-second"@,
            ChapterAnchor::Chapter2(Chapter2Marks::First) => "#chapter2-first"@,
            ChapterAnchor::Invalid => "#Invalid"@,
        }
    }

    /// The anchor text, with its leading hash.
    pub fn get_string(&self) -> (r: String)
        ensures
            r@ == self.spec_tag(),
    {
        match self {
            ChapterAnchor::Chapter1(Chapter1Marks::First) => String::from_str("#chapter1-first"),
            ChapterAnchor::Chapter1(Chapter1Marks::Second) => String::from_str(
                "#chapter1-second",
            ),
            ChapterAnchor::Chapter2(Chapter2Marks::First) => String::from_str("#chapter2-first"),
            ChapterAnchor::Invalid => String::from_str("#Invalid"),
        }
    }

    /// What an anchor text without its hash stands for, once it is split
    /// at its first dash into a chapter part and a mark part (`d` and `d2`
    /// are the positions of the first and the second dash, or the end).
    pub open spec fn spec_decision(s: Seq<char>, d: int, d2: int) -> Option<ChapterAnchor> {
        let chapter = s.subrange(0, d);
        let mark = s.subrange(d + 1, d2);
        if spells_ci(chapter, "chapter1"@) || spells_ci(chapter, "chapter01"@) {
            if spells_ci(mark, "first"@) {
                Some(ChapterAnchor::Chapter1(Chapter1Marks::First))
            } else if spells_ci(mark, "second"@) {
                Some(ChapterAnchor::Chapter1(Chapter1Marks::Second))
            } else {
                None
            }
        } else if spells_ci(chapter, "chapter2"@) || spells_ci(chapter, "chapter02"@) {
            if spells_ci(mark, "first"@) {
                Some(ChapterAnchor::Chapter2(Chapter2Marks::First))
            } else {
                None
            }
        } else {
            None
        }
    }

    /// Parse an anchor text without its hash: the part before the first
    /// dash names the chapter, the part up to the next dash (or the end)
    /// names the mark, and anything further is ignored.  A text without a
    /// dash is no anchor.
    pub fn read_str(url_infos: &str) -> (r: Option<ChapterAnchor>)
        ensures
            ({
                ||| ((forall|i: int| 0 <= i < url_infos@.len() ==> url_infos@[i] != '-') && r
                    is None)
                ||| (exists|d: int, d2: int|
                    {
                        &&& 0 <= d < url_infos@.len()
                        &&& url_infos@[d] == '-'
                        &&& forall|i: int| 0 <= i < d ==> url_infos@[i] != '-'
                        &&& d + 1 <= d2 <= url_infos@.len()
                        &&& (d2 == url_infos@.len() || url_infos@[d2] == '-')
                        &&& forall|i: int| d + 1 <= i < d2 ==> url_infos@[i] != '-'
                        &&& r == ChapterAnchor::spec_decision(url_infos@, d, d2)
                    })
            }),
    {
        let n = url_infos.unicode_len();
        let d = match find_dash(url_infos, 0, n) {
            Some(d) => d,
            None => {
                return None;
            },
        };
        let d2 = match find_dash(url_infos, d + 1, n) {
            Some(d2) => d2,
            None => n,
        };
        let r = if region_spells_ci(url_infos, 0, d, "chapter1") || region_spells_ci(
            url_infos,
            0,
            d,
            "chapter01",
        ) {
            if region_spells_ci(url_infos, d + 1, d2, "first") {
                Some(ChapterAnchor::Chapter1(Chapter1Marks::First))
            } else if region_spells_ci(url_infos, d + 1, d2, "second") {
                Some(ChapterAnchor::Chapter1(Chapter1Marks::Second))
            } else {
                None
            }
        } else if region_spells_ci(url_infos, 0, d, "chapter2") || region_spells_ci(
            url_infos,
            0,
            d,
            "chapter02",
        ) {
            if region_spells_ci(url_infos, d + 1, d2, "first") {
                Some(ChapterAnchor::Chapter2(Chapter2Marks::First))
            } else {
                None
            }
        } else {
            None
        };
        proof {
            assert(r == ChapterAnchor::spec_decision(url_infos@, d as int, d2 as int));
        }
        r
    }
}

/// `s` spells the lower-case reference `t` as a whole, ignoring ASCII case.
fn str_spells_ci(s: &str, t: &str) -> (r: bool)
    ensures
        r == spells_ci(s@, t@),
{
    let n = s.unicode_len();
    let r = region_spells_ci(s, 0, n, t);
    proof {
        assert(s@.subrange(0, n as int) =~= s@);
    }
    r
}

/// Position of the first dash at or after `from`, if any.
fn find_dash(s: &str, from: usize, n: usize) -> (r: Option<usize>)
    requires
        from <= n,
        n == s@.len(),
    ensures
        match r {
            Some(d) => from <= d < n && s@[d as int] == '-' && (forall|i: int|
                from <= i < d ==> s@[i] != '-'),
            None => forall|i: int| from <= i < n ==> s@[i] != '-',
        },
{
    let mut i = from;
    while i < n
        invariant
            from <= i <= n,
            n == s@.len(),
            forall|k: int| from <= k < i ==> s@[k] != '-',
        decreases n - i,
    {
        if s.get_char(i) == '-' {
            return Some(i);
        }
        i = i + 1;
    }
    None
}

/// The region `from .. to` of `s` spells the lower-case reference `t`,
/// ignoring ASCII case.
fn region_spells_ci(s: &str, from: usize, to: usize, t: &str) -> (r: bool)
    requires
        from <= to <= s@.len(),
    ensures
        r == spells_ci(s@.subrange(from as int, to as int), t@),
{
    let m = t.unicode_len();
    if to - from != m {
        return false;
    }
    let ghost region = s@.subrange(from as int, to as int);
    let mut i: usize = 0;
    while i < m
        invariant
            i <= m,
            m == t@.len(),
            from + m == to,
            to <= s@.len(),
            region == s@.subrange(from as int, to as int),
            forall|k: int| 0 <= k < i ==> matches_ci(region[k], #[trigger] t@[k]),
        decreases m - i,
    {
        let c = s.get_char(from + i);
        let e = t.get_char(i);
        proof {
            assert(region[i as int] == s@[from + i]);
        }
        let c32 = c as u64;
        let e32 = e as u64;
        if !(c == e || (97 <= e32 && e32 <= 122 && c32 + 32 == e32)) {
            proof {
                assert(!matches_ci(region[i as int], t@[i as int]));
            }
            return false;
        }
        i = i + 1;
    }
    true
}

} // verus!
