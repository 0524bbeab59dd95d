use vstd::prelude::*;
use vstd::slice::{slice_subrange, slice_to_vec};
use vstd::string::*;

use crate::error::SetupError;
use crate::text::{bytes_contain, contains_seq, opt_view, string_views};

verus! {

/// A path separator of the target platform: `\` or `/`.
pub open spec fn is_separator(c: char) -> bool {
    c == '\\' || c == '/'
}

/// `rel` under `base`, with one separator between them.
pub open spec fn join_path(base: Seq<char>, rel: Seq<char>) -> Seq<char> {
    if base.len() == 0 || is_separator(base.last()) {
        base + rel
    } else {
        base.push('\\') + rel
    }
}

/// `rel` under `base`, with one separator between them.
pub fn join(base: &String, rel: &str) -> (r: String)
    ensures
        r@ == join_path(base@, rel@),
{
    let b = base.as_str();
    let n = b.unicode_len();
    let mut r = base.clone();
    if n > 0 {
        let c = b.get_char(n - 1);
        if c != '\\' && c != '/' {
            r.append("\\");
            proof {
                reveal_strlit("\\");
                assert("\\"@ =~= seq!['\\']);
            }
        }
    }
    r.append(rel);
    r
}

/// The version number that belongs to a year of release, or the selector
/// itself where it names no known year.
pub open spec fn version_of(v: Seq<char>) -> Seq<char> {
    if v == "2022"@ {
        "17.0"@
    } else if v == "2019"@ {
        "16.0"@
    } else if v == "2017"@ {
        "15.0"@
    } else if v == "2015"@ {
        "14.0"@
    } else if v == "2013"@ {
        "12.0"@
    } else {
        v
    }
}

/// The year of release that belongs to a version number, or the selector
/// itself where it names no known version.
pub open spec fn year_of(v: Seq<char>) -> Seq<char> {
    if v == "17.0"@ {
        "2022"@
    } else if v == "16.0"@ {
        "2019"@
    } else if v == "15.0"@ {
        "2017"@
    } else if v == "14.0"@ {
        "2015"@
    } else if v == "12.0"@ {
        "2013"@
    } else {
        v
    }
}

/// The years searched when no version is asked for, newest first.
pub open spec fn default_years() -> Seq<Seq<char>> {
    seq!["2022"@, "2019"@, "2017"@, "2015"@]
}

/// The editions searched, in order of preference.
pub open spec fn editions() -> Seq<Seq<char>> {
    seq!["Enterprise"@, "Professional"@, "Community"@, "Preview"@, "BuildTools"@]
}

/// The years to search for a selector.
pub open spec fn years_for(vsversion: Option<Seq<char>>) -> Seq<Seq<char>> {
    match vsversion {
        Some(v) => seq![year_of(v)],
        None => default_years(),
    }
}

/// The configuration script below an installation root.
pub open spec fn script_under(root: Seq<char>) -> Seq<char> {
    join_path(root, "VC/Auxiliary/Build/vcvarsall.bat"@)
}

/// Where one edition of one year would be installed below `base`.
pub open spec fn edition_script(base: Seq<char>, year: Seq<char>, edition: Seq<char>) -> Seq<char> {
    script_under(join_path(join_path(join_path(base, "Microsoft Visual Studio"@), year), edition))
}

/// The first `k` editions of one year below `base`.
pub open spec fn edition_scripts(base: Seq<char>, year: Seq<char>, k: int) -> Seq<Seq<char>>
    decreases k,
{
    if k <= 0 {
        Seq::empty()
    } else {
        edition_scripts(base, year, k - 1).push(edition_script(base, year, editions()[k - 1]))
    }
}

/// All editions of the first `k` years below `base`.
pub open spec fn year_scripts(base: Seq<char>, years: Seq<Seq<char>>, k: int) -> Seq<Seq<char>>
    decreases k,
{
    if k <= 0 {
        Seq::empty()
    } else {
        year_scripts(base, years, k - 1) + edition_scripts(base, years[k - 1], 5)
    }
}

/// All years and editions below the first `k` bases.
pub open spec fn base_scripts(bases: Seq<Seq<char>>, years: Seq<Seq<char>>, k: int) -> Seq<Seq<char>>
    decreases k,
{
    if k <= 0 {
        Seq::empty()
    } else {
        base_scripts(bases, years, k - 1) + year_scripts(bases[k - 1], years, years.len() as int)
    }
}

/// The script of the stand-alone build tools of the oldest supported release.
pub open spec fn legacy_script(program_files_x86: Seq<char>) -> Seq<char> {
    join_path(program_files_x86, "Microsoft Visual C++ Build Tools/vcbuildtools.bat"@)
}

/// `i` is the first position below `n` where `present` holds true.
pub open spec fn is_first_true(present: Seq<bool>, n: int, i: int) -> bool {
    0 <= i < n && i < present.len() && present[i] && forall|j: int| 0 <= j < i ==> !present[j]
}

/// The standard places of the installation roots: the 32-bit and the 64-bit
/// program directories, searched in that order.
pub struct Constants {
    pub program_files_x86: String,
    pub program_files: Vec<String>,
}

impl Constants {
    /// Every place searched when the locator tool finds nothing, in order.
    pub open spec fn candidate_scripts(&self, vsversion: Option<Seq<char>>) -> Seq<Seq<char>> {
        base_scripts(
            string_views(self.program_files@),
            years_for(vsversion),
            self.program_files@.len() as int,
        ).push(legacy_script(self.program_files_x86@))
    }

    /// The search bases from the values of the variables `ProgramFiles(x86)`
    /// and `ProgramFiles`; a missing one is named in the error.
    pub fn new(program_files_x86: Option<String>, program_files: Option<String>) -> (r: Result<
        Constants,
        SetupError,
    >)
        ensures
            match (program_files_x86, program_files) {
                (Some(x), Some(p)) => r is Ok && r->Ok_0.program_files_x86@ == x@ && string_views(
                    r->Ok_0.program_files@,
                ) == seq![x@, p@],
                (None, _) => r is Err && r->Err_0 is MissingVariable && r->Err_0->MissingVariable_0@
                    == "ProgramFiles(x86)"@,
                (Some(_), None) => r is Err && r->Err_0 is MissingVariable
                    && r->Err_0->MissingVariable_0@ == "ProgramFiles"@,
            },
    {
        let x = match program_files_x86 {
            Some(x) => x,
            None => {
                return Err(SetupError::MissingVariable(String::from_str("ProgramFiles(x86)")));
            },
        };
        let p = match program_files {
            Some(p) => p,
            None => {
                return Err(SetupError::MissingVariable(String::from_str("ProgramFiles")));
            },
        };
        let bases = vec![x.clone(), p];
        assert(string_views(bases@) =~= seq![x@, bases@[1]@]);
        Ok(Constants { program_files_x86: x, program_files: bases })
    }

    /// The directory where the installer puts its locator tool.
    pub fn vswhere_dir(&self) -> (r: String)
        ensures
            r@ == join_path(self.program_files_x86@, "Microsoft Visual Studio/Installer"@),
    {
        join(&self.program_files_x86, "Microsoft Visual Studio/Installer")
    }

    /// The version number that a selector asks for: a known year becomes its
    /// version number, anything else is taken as a version number already.
    pub fn vsversion_to_versionnumber(&self, vsversion: &Option<String>) -> (r: Option<String>)
        ensures
            match vsversion {
                Some(v) => r is Some && r->Some_0@ == version_of(v@),
                None => r is None,
            },
    {
        match vsversion {
            Some(v) => {
                let table: Vec<(&str, &str)> = vec![
                    ("2022", "17.0"),
                    ("2019", "16.0"),
                    ("2017", "15.0"),
                    ("2015", "14.0"),
                    ("2013", "12.0"),
                ];
                Some(lookup_pair(&table, v, true))
            },
            None => None,
        }
    }

    /// The year of release that a version number belongs to, or the selector
    /// itself where it names no known version.
    pub fn vsversion_to_year(&self, vsversion: &str) -> (r: String)
        ensures
            r@ == year_of(vsversion@),
    {
        let table: Vec<(&str, &str)> = vec![
            ("2022", "17.0"),
            ("2019", "16.0"),
            ("2017", "15.0"),
            ("2015", "14.0"),
            ("2013", "12.0"),
        ];
        lookup_pair(&table, &String::from_str(vsversion), false)
    }

    /// The years to search for a selector, newest first.
    pub fn years(&self, vsversion: &Option<String>) -> (r: Vec<String>)
        ensures
            string_views(r@) == years_for(opt_view(*vsversion)),
    {
        match vsversion {
            Some(v) => {
                let r = vec![self.vsversion_to_year(v.as_str())];
                assert(string_views(r@) =~= seq![year_of(v@)]);
                r
            },
            None => {
                let r = vec![
                    String::from_str("2022"),
                    String::from_str("2019"),
                    String::from_str("2017"),
                    String::from_str("2015"),
                ];
                assert(string_views(r@) =~= default_years());
                r
            },
        }
    }

    /// The places searched when the locator tool finds nothing, in order:
    /// each base, each year newest first, each edition in order of
    /// preference; last the stand-alone build tools.
    pub fn fallback_candidates(&self, vsversion: &Option<String>) -> (r: Vec<String>)
        ensures
            string_views(r@) == self.candidate_scripts(opt_view(*vsversion)),
    {
        let years = self.years(vsversion);
        let eds: Vec<&str> = vec!["Enterprise", "Professional", "Community", "Preview", "BuildTools"];
        assert(eds@.map_values(|s: &str| s@) =~= editions());
        let ghost bases = string_views(self.program_files@);
        let ghost ys = string_views(years@);
        let mut r: Vec<String> = Vec::new();
        let mut i: usize = 0;
        assert(string_views(r@) =~= base_scripts(bases, ys, 0));
        while i < self.program_files.len()
            invariant
                0 <= i <= self.program_files@.len(),
                bases == string_views(self.program_files@),
                ys == string_views(years@),
                eds@.map_values(|s: &str| s@) == editions(),
                eds@.len() == 5,
                string_views(r@) == base_scripts(bases, ys, i as int),
            decreases self.program_files@.len() - i,
        {
            let base = join(&self.program_files[i], "Microsoft Visual Studio");
            let ghost start = string_views(r@);
            let mut j: usize = 0;
            assert(start + year_scripts(bases[i as int], ys, 0) =~= start);
            while j < years.len()
                invariant
                    0 <= i < self.program_files@.len(),
                    0 <= j <= years@.len(),
                    bases == string_views(self.program_files@),
                    ys == string_views(years@),
                    base@ == join_path(bases[i as int], "Microsoft Visual Studio"@),
                    eds@.map_values(|s: &str| s@) == editions(),
                    eds@.len() == 5,
                    string_views(r@) == start + year_scripts(bases[i as int], ys, j as int),
                decreases years@.len() - j,
            {
                let in_year = join(&base, years[j].as_str());
                let ghost mid = string_views(r@);
                let mut k: usize = 0;
                assert(mid + edition_scripts(bases[i as int], ys[j as int], 0) =~= mid);
                while k < eds.len()
                    invariant
                        0 <= i < self.program_files@.len(),
                        0 <= j < years@.len(),
                        0 <= k <= 5,
                        bases == string_views(self.program_files@),
                        ys == string_views(years@),
                        in_year@ == join_path(
                            join_path(bases[i as int], "Microsoft Visual Studio"@),
                            ys[j as int],
                        ),
                        eds@.map_values(|s: &str| s@) == editions(),
                        eds@.len() == 5,
                        string_views(r@) == mid + edition_scripts(bases[i as int], ys[j as int], k as int),
                    decreases 5 - k,
                {
                    let dir = join(&in_year, eds[k]);
                    let script = join(&dir, "VC/Auxiliary/Build/vcvarsall.bat");
                    assert(eds@[k as int]@ == editions()[k as int]);
                    let ghost prev = r@;
                    r.push(script);
                    assert(string_views(r@) =~= string_views(prev).push(script@));
                    k += 1;
                }
                assert(ys[j as int] == years@[j as int]@);
                let ghost ysub = year_scripts(bases[i as int], ys, j + 1);
                assert(ysub == year_scripts(bases[i as int], ys, j as int) + edition_scripts(
                    bases[i as int],
                    ys[j as int],
                    5,
                ));
                j += 1;
            }
            i += 1;
        }
        let legacy = join(&self.program_files_x86, "Microsoft Visual C++ Build Tools/vcbuildtools.bat");
        let ghost prev = r@;
        r.push(legacy);
        assert(string_views(r@) =~= string_views(prev).push(legacy@));
        r
    }

    /// The configuration script to run: the one below the root that the
    /// locator tool reported, if any; else the first fallback candidate that
    /// exists on disk (`present[i]` tells of candidate `i`); else not found.
    pub fn find_vcvarsall(
        &self,
        vsversion: &Option<String>,
        located: Option<String>,
        present: &Vec<bool>,
    ) -> (r: Result<String, SetupError>)
        ensures
            located is Some ==> r is Ok && r->Ok_0@ == located->Some_0@,
            located is None && r is Ok ==> exists|i: int|
                is_first_true(
                    present@,
                    self.candidate_scripts(opt_view(*vsversion)).len() as int,
                    i,
                ) && r->Ok_0@ == self.candidate_scripts(opt_view(*vsversion))[i],
            located is None && r is Err ==> r->Err_0 == SetupError::NotFound && forall|i: int|
                0 <= i < self.candidate_scripts(opt_view(*vsversion)).len() && i < present@.len()
                    ==> !present@[i],
    {
        match located {
            Some(p) => {
                return Ok(p);
            },
            None => {},
        }
        let cands = self.fallback_candidates(vsversion);
        let ghost want = self.candidate_scripts(opt_view(*vsversion));
        let mut i: usize = 0;
        while i < cands.len() && i < present.len()
            invariant
                located is None,
                want == self.candidate_scripts(opt_view(*vsversion)),
                string_views(cands@) == want,
                0 <= i <= cands@.len(),
                forall|j: int| 0 <= j < i ==> !present@[j],
            decreases cands@.len() - i,
        {
            if present[i] {
                let p = cands[i].clone();
                let ghost sc = string_views(cands@);
                assert(sc.len() == cands@.len());
                assert(is_first_true(present@, sc.len() as int, i as int));
                assert(sc[i as int] == p@);
                assert(exists|t: int| is_first_true(present@, sc.len() as int, t) && p@ == sc[t]);
                return Ok(p);
            }
            i += 1;
        }
        Err(SetupError::NotFound)
    }
}

/// Looks `key` up in a table of pairs: on the first component if `forward`,
/// else on the second; gives the other component, or `key` itself.
fn lookup_pair(table: &Vec<(&str, &str)>, key: &String, forward: bool) -> (r: String)
    requires
        table@.len() == 5,
        table@[0].0@ == "2022"@ && table@[0].1@ == "17.0"@,
        table@[1].0@ == "2019"@ && table@[1].1@ == "16.0"@,
        table@[2].0@ == "2017"@ && table@[2].1@ == "15.0"@,
        table@[3].0@ == "2015"@ && table@[3].1@ == "14.0"@,
        table@[4].0@ == "2013"@ && table@[4].1@ == "12.0"@,
    ensures
        forward ==> r@ == version_of(key@),
        !forward ==> r@ == year_of(key@),
{
    let mut i: usize = 0;
    while i < table.len()
        invariant
            0 <= i <= 5,
            table@.len() == 5,
            table@[0].0@ == "2022"@ && table@[0].1@ == "17.0"@,
            table@[1].0@ == "2019"@ && table@[1].1@ == "16.0"@,
            table@[2].0@ == "2017"@ && table@[2].1@ == "15.0"@,
            table@[3].0@ == "2015"@ && table@[3].1@ == "14.0"@,
            table@[4].0@ == "2013"@ && table@[4].1@ == "12.0"@,
            forall|j: int|
                0 <= j < i ==> key@ != (if forward {
                    (#[trigger] table@[j]).0@
                } else {
                    table@[j].1@
                }),
        decreases 5 - i,
    {
        let (a, b) = table[i];
        let probe = if forward { String::from_str(a) } else { String::from_str(b) };
        if *key == probe {
            return if forward { String::from_str(b) } else { String::from_str(a) };
        }
        i += 1;
    }
    assert(forward ==> key@ != table@[0].0@ && key@ != table@[1].0@ && key@ != table@[2].0@
        && key@ != table@[3].0@ && key@ != table@[4].0@);
    assert(!forward ==> key@ != table@[0].1@ && key@ != table@[1].1@ && key@ != table@[2].1@
        && key@ != table@[3].1@ && key@ != table@[4].1@);
    key.clone()
}

/// Whether a byte is ASCII white space (`u8::is_ascii_whitespace`).
pub open spec fn is_space(b: u8) -> bool {
    b == 0x20 || b == 0x09 || b == 0x0a || b == 0x0c || b == 0x0d
}

/// `s` without its leading and trailing ASCII white space.
pub open spec fn trimmed(s: Seq<u8>) -> Seq<u8>
    decreases s.len(),
{
    if s.len() > 0 && is_space(s[0]) {
        trimmed(s.drop_first())
    } else if s.len() > 0 && is_space(s.last()) {
        trimmed(s.drop_last())
    } else {
        s
    }
}

/// `Visual Studio Locator`, which the locator tool prints in its banner.
pub open spec fn banner_title() -> Seq<u8> {
    seq![
        0x56u8, 0x69, 0x73, 0x75, 0x61, 0x6c, 0x20, 0x53, 0x74, 0x75, 0x64, 0x69, 0x6f, 0x20,
        0x4c, 0x6f, 0x63, 0x61, 0x74, 0x6f, 0x72,
    ]
}

/// `Copyright (C)`, which the locator tool prints in its banner.
pub open spec fn banner_copyright() -> Seq<u8> {
    seq![0x43u8, 0x6f, 0x70, 0x79, 0x72, 0x69, 0x67, 0x68, 0x74, 0x20, 0x28, 0x43, 0x29]
}

/// What the locator tool's output says of the installation root: its trimmed
/// text, unless that is empty or is the tool's own banner rather than a path.
pub open spec fn located_root(out: Seq<u8>) -> Option<Seq<u8>> {
    if contains_seq(out, banner_title()) || contains_seq(out, banner_copyright()) || trimmed(
        out,
    ).len() == 0 {
        None
    } else {
        Some(trimmed(out))
    }
}

/// The installation root that the locator tool reported on its standard
/// output, if it reported one.
pub fn vswhere_installation(out: &[u8]) -> (r: Option<Vec<u8>>)
    ensures
        match r {
            Some(v) => located_root(out@) == Some(v@),
            None => located_root(out@) is None,
        },
{
    let title: Vec<u8> = vec![
        0x56u8, 0x69, 0x73, 0x75, 0x61, 0x6c, 0x20, 0x53, 0x74, 0x75, 0x64, 0x69, 0x6f, 0x20,
        0x4c, 0x6f, 0x63, 0x61, 0x74, 0x6f, 0x72,
    ];
    let copyright: Vec<u8> = vec![
        0x43u8, 0x6f, 0x70, 0x79, 0x72, 0x69, 0x67, 0x68, 0x74, 0x20, 0x28, 0x43, 0x29,
    ];
    assert(title@ =~= banner_title());
    assert(copyright@ =~= banner_copyright());
    if bytes_contain(out, title.as_slice()) || bytes_contain(out, copyright.as_slice()) {
        return None;
    }
    let mut lo: usize = 0;
    let mut hi: usize = out.len();
    assert(out@.subrange(0, out@.len() as int) =~= out@);
    while lo < hi && (out[lo] == 0x20 || out[lo] == 0x09 || out[lo] == 0x0a || out[lo] == 0x0c
        || out[lo] == 0x0d)
        invariant
            0 <= lo <= hi <= out@.len(),
            trimmed(out@) == trimmed(out@.subrange(lo as int, hi as int)),
        decreases hi - lo,
    {
        assert(out@.subrange(lo as int, hi as int).drop_first() =~= out@.subrange(lo + 1, hi as int));
        lo += 1;
    }
    while lo < hi && (out[hi - 1] == 0x20 || out[hi - 1] == 0x09 || out[hi - 1] == 0x0a
        || out[hi - 1] == 0x0c || out[hi - 1] == 0x0d)
        invariant
            0 <= lo <= hi <= out@.len(),
            lo < hi ==> !is_space(out@[lo as int]),
            trimmed(out@) == trimmed(out@.subrange(lo as int, hi as int)),
        decreases hi - lo,
    {
        assert(out@.subrange(lo as int, hi as int).drop_last() =~= out@.subrange(lo as int, hi - 1));
        hi -= 1;
    }
    let ghost t = out@.subrange(lo as int, hi as int);
    assert(trimmed(t) == t);
    if lo == hi {
        return None;
    }
    let v = slice_to_vec(slice_subrange(out, lo, hi));
    Some(v)
}

/// The configuration script below an installation root.
pub fn vcvarsall_in(root: &String) -> (r: String)
    ensures
        r@ == script_under(root@),
{
    join(root, "VC/Auxiliary/Build/vcvarsall.bat")
}

/// The part of a version number before its first dot (all of it if it has
/// none).
pub open spec fn major_of(v: Seq<char>) -> Seq<char>
    decreases v.len(),
{
    if v.len() == 0 || v[0] == '.' {
        Seq::empty()
    } else {
        seq![v[0]] + major_of(v.drop_first())
    }
}

/// A prefix free of dots that ends at a dot or at the end is the major part.
proof fn lemma_major(v: Seq<char>, k: int)
    requires
        0 <= k <= v.len(),
        forall|j: int| 0 <= j < k ==> v[j] != '.',
        k == v.len() || v[k] == '.',
    ensures
        major_of(v) == v.take(k),
    decreases k,
{
    if k == 0 {
        assert(v.take(0) =~= Seq::<char>::empty());
    } else {
        let w = v.drop_first();
        assert forall|j: int| 0 <= j < k - 1 implies w[j] != '.' by {
            assert(w[j] == v[j + 1]);
        }
        if k < v.len() {
            assert(w[k - 1] == v[k]);
        }
        lemma_major(w, k - 1);
        assert(seq![v[0]] + w.take(k - 1) =~= v.take(k));
    }
}

/// The arguments for the locator tool: every product, the version window
/// from the version number up to the last minor version of its major one
/// (or else the latest installation), previews included, and only the
/// installation path, in UTF-8.
pub open spec fn vswhere_args_of(version: Option<Seq<char>>) -> Seq<Seq<char>> {
    let window = match version {
        Some(v) => seq!["-version"@, v + ","@ + major_of(v) + ".9"@],
        None => seq!["-latest"@],
    };
    seq!["-products"@, "*"@] + window + seq!["-prerelease"@, "-property"@, "installationPath"@, "-utf8"@]
}

/// The part of a version number before its first dot.
fn major_part(v: &str) -> (r: String)
    ensures
        r@ == major_of(v@),
{
    let n = v.unicode_len();
    let mut k: usize = 0;
    while k < n && v.get_char(k) != '.'
        invariant
            n == v@.len(),
            0 <= k <= n,
            forall|j: int| 0 <= j < k ==> v@[j] != '.',
        decreases n - k,
    {
        k += 1;
    }
    proof {
        lemma_major(v@, k as int);
    }
    String::from_str(v.substring_char(0, k))
}

/// The view of a version selector after the year table.
pub open spec fn version_view(o: Option<String>) -> Option<Seq<char>> {
    match o {
        Some(v) => Some(version_of(v@)),
        None => None,
    }
}

impl Constants {
    /// The arguments for the locator tool for a version selector.
    pub fn vswhere_args(&self, vsversion: &Option<String>) -> (r: Vec<String>)
        ensures
            string_views(r@) == vswhere_args_of(version_view(*vsversion)),
    {
        let mut r: Vec<String> = vec![String::from_str("-products"), String::from_str("*")];
        match self.vsversion_to_versionnumber(vsversion) {
            Some(v) => {
                let mut w = v.clone();
                w.append(",");
                let major = major_part(v.as_str());
                w.append(major.as_str());
                w.append(".9");
                r.push(String::from_str("-version"));
                r.push(w);
            },
            None => {
                r.push(String::from_str("-latest"));
            },
        }
        r.push(String::from_str("-prerelease"));
        r.push(String::from_str("-property"));
        r.push(String::from_str("installationPath"));
        r.push(String::from_str("-utf8"));
        assert(string_views(r@) =~= vswhere_args_of(version_view(*vsversion)));
        r
    }
}

/// Where each edition of one year stands.
proof fn lemma_edition_scripts(base: Seq<char>, year: Seq<char>, k: int)
    requires
        0 <= k <= 5,
    ensures
        edition_scripts(base, year, k).len() == k,
        forall|e: int|
            0 <= e < k ==> #[trigger] edition_scripts(base, year, k)[e] == edition_script(
                base,
                year,
                editions()[e],
            ),
    decreases k,
{
    if k > 0 {
        lemma_edition_scripts(base, year, k - 1);
    }
}

/// Where each edition of each year stands below one base.
proof fn lemma_year_scripts(base: Seq<char>, years: Seq<Seq<char>>, k: int)
    requires
        0 <= k <= years.len(),
    ensures
        year_scripts(base, years, k).len() == 5 * k,
        forall|y: int, e: int|
            0 <= y < k && 0 <= e < 5 ==> #[trigger] year_scripts(base, years, k)[5 * y + e]
                == edition_script(base, years[y], #[trigger] editions()[e]),
    decreases k,
{
    if k > 0 {
        lemma_year_scripts(base, years, k - 1);
        lemma_edition_scripts(base, years[k - 1], 5);
        let prev = year_scripts(base, years, k - 1);
        let last = edition_scripts(base, years[k - 1], 5);
        assert forall|y: int, e: int| 0 <= y < k && 0 <= e < 5 implies #[trigger] year_scripts(
            base,
            years,
            k,
        )[5 * y + e] == edition_script(base, years[y], #[trigger] editions()[e]) by {
            if y < k - 1 {
                assert((prev + last)[5 * y + e] == prev[5 * y + e]);
            } else {
                assert((prev + last)[5 * y + e] == last[e]);
            }
        }
    }
}

/// Where each edition of each year of each base stands.
proof fn lemma_base_scripts(bases: Seq<Seq<char>>, years: Seq<Seq<char>>, k: int)
    requires
        0 <= k <= bases.len(),
    ensures
        base_scripts(bases, years, k).len() == k * (5 * years.len()),
        forall|b: int, y: int, e: int|
            0 <= b < k && 0 <= y < years.len() && 0 <= e < 5 ==> #[trigger] base_scripts(
                bases,
                years,
                k,
            )[b * (5 * years.len()) + 5 * y + e] == edition_script(
                bases[b],
                #[trigger] years[y],
                #[trigger] editions()[e],
            ),
    decreases k,
{
    let n = 5 * years.len();
    if k > 0 {
        lemma_base_scripts(bases, years, k - 1);
        lemma_year_scripts(bases[k - 1], years, years.len() as int);
        let prev = base_scripts(bases, years, k - 1);
        let last = year_scripts(bases[k - 1], years, years.len() as int);
        assert(k * n == (k - 1) * n + n) by (nonlinear_arith);
        assert forall|b: int, y: int, e: int|
            0 <= b < k && 0 <= y < years.len() && 0 <= e < 5 implies #[trigger] base_scripts(
            bases,
            years,
            k,
        )[b * n + 5 * y + e] == edition_script(
            bases[b],
            #[trigger] years[y],
            #[trigger] editions()[e],
        ) by {
            assert(0 <= 5 * y + e < n);
            if b < k - 1 {
                assert(b * n + n <= (k - 1) * n) by (nonlinear_arith)
                    requires
                        b < k - 1,
                        n >= 0,
                ;
                assert(b * n >= 0) by (nonlinear_arith)
                    requires
                        b >= 0,
                        n >= 0,
                ;
                assert((prev + last)[b * n + 5 * y + e] == prev[b * n + 5 * y + e]);
            } else {
                assert((prev + last)[b * n + 5 * y + e] == last[5 * y + e]);
            }
        }
    } else {
        assert(k * n == 0) by (nonlinear_arith)
            requires
                k == 0,
        ;
    }
}

/// The fallback candidates come base by base, within a base year by year in
/// the order searched, within a year edition by edition in order of
/// preference; the stand-alone build tools come last. So an edition of a
/// newer year is tried before any edition of an older one.
pub proof fn law_candidate_order(c: Constants, vsversion: Option<Seq<char>>, b: int, y: int, e: int)
    requires
        0 <= b < c.program_files@.len(),
        0 <= y < years_for(vsversion).len(),
        0 <= e < 5,
    ensures
        ({
            let n = 5 * years_for(vsversion).len();
            let cands = c.candidate_scripts(vsversion);
            &&& cands.len() == c.program_files@.len() * n + 1
            &&& cands[b * n + 5 * y + e] == edition_script(
                c.program_files@[b]@,
                years_for(vsversion)[y],
                editions()[e],
            )
            &&& cands.last() == legacy_script(c.program_files_x86@)
        }),
{
    let bases = string_views(c.program_files@);
    let years = years_for(vsversion);
    let n = 5 * years.len();
    lemma_base_scripts(bases, years, bases.len() as int);
    assert(b * n + 5 * y + e < bases.len() * n) by (nonlinear_arith)
        requires
            0 <= b < bases.len(),
            0 <= 5 * y + e < n,
    ;
    assert(bases[b] == c.program_files@[b]@);
}

} // verus!
