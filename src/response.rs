//! The daemon's replies, parsed into typed results.
use vstd::prelude::*;
use chrono::TimeZone;
use crate::error::ClamError;
use crate::number::{parse_u64, u64_of};
use crate::text::{
    chars_of, contains, find, find_from, first_index_of, has_prefix, has_suffix,
    lemma_find_from_bounds, lemma_pieces_from_nonempty, pieces, split_first, split_pieces,
    string_of, substring,
};

verus! {

pub open spec fn opt_view(o: Option<String>) -> Option<Seq<char>> {
    match o {
        Some(x) => Some(x@),
        None => None,
    }
}

/// A malware signature name, `platform.category.virus-signum-sigversion`,
/// taken apart.
#[derive(Debug, Clone, PartialEq)]
pub struct Signature {
    /// The targeted platform or file format.
    pub platform: Option<String>,
    /// The category.
    pub category: Option<String>,
    /// A representative name.
    pub virus: Option<String>,
    /// The signature number.
    pub signum: Option<String>,
    /// The signature's sub-version.
    pub sigversion: Option<String>,
    /// The name as it was given.
    pub raw: String,
}

/// The part of a signature name before its first `-`.
pub open spec fn sig_name_part(s: Seq<char>) -> Seq<char> {
    split_first(s, '-').0
}

/// The part of a signature name after its first `-`, if any.
pub open spec fn sig_version_part(s: Seq<char>) -> Option<Seq<char>> {
    split_first(s, '-').1
}

pub open spec fn sig_platform(s: Seq<char>) -> Option<Seq<char>> {
    Some(split_first(sig_name_part(s), '.').0)
}

pub open spec fn sig_category(s: Seq<char>) -> Option<Seq<char>> {
    match split_first(sig_name_part(s), '.').1 {
        Some(rest) => Some(split_first(rest, '.').0),
        None => None,
    }
}

pub open spec fn sig_virus(s: Seq<char>) -> Option<Seq<char>> {
    match split_first(sig_name_part(s), '.').1 {
        Some(rest) => split_first(rest, '.').1,
        None => None,
    }
}

pub open spec fn sig_signum(s: Seq<char>) -> Option<Seq<char>> {
    match sig_version_part(s) {
        Some(v) => Some(split_first(v, '-').0),
        None => None,
    }
}

pub open spec fn sig_sigversion(s: Seq<char>) -> Option<Seq<char>> {
    match sig_version_part(s) {
        Some(v) => split_first(v, '-').1,
        None => None,
    }
}

impl Signature {
    /// This signature is the decomposition of the name `s`.
    pub open spec fn is_decomposition_of(&self, s: Seq<char>) -> bool {
        &&& opt_view(self.platform) == sig_platform(s)
        &&& opt_view(self.category) == sig_category(s)
        &&& opt_view(self.virus) == sig_virus(s)
        &&& opt_view(self.signum) == sig_signum(s)
        &&& opt_view(self.sigversion) == sig_sigversion(s)
        &&& self.raw@ == s
    }

    /// Takes a signature name apart. Missing pieces are absent; this never
    /// fails.
    pub fn from(s: &str) -> (r: Self)
        ensures
            r.is_decomposition_of(s@),
            r.raw@ == s@,
    {
        let v = chars_of(s);
        let (platform, category, virus, signum, sigversion) = decompose(&v);
        let raw = s.to_owned();
        Signature { platform, category, virus, signum, sigversion, raw }
    }
}

/// Splits `v[lo..hi]` at its first `c`: the end of the part before it and,
/// when `c` occurs, the start of the part after it.
fn split_at_first(v: &Vec<char>, lo: usize, hi: usize, c: char) -> (r: (usize, Option<usize>))
    requires
        lo <= hi <= v@.len(),
    ensures
        lo <= r.0 <= hi,
        r.1 matches Some(k) ==> k == r.0 + 1 && k <= hi,
        split_first(v@.subrange(lo as int, hi as int), c).0 == v@.subrange(lo as int, r.0 as int),
        split_first(v@.subrange(lo as int, hi as int), c).1 == (match r.1 {
            Some(k) => Some(v@.subrange(k as int, hi as int)),
            None => None::<Seq<char>>,
        }),
{
    let ghost s = v@.subrange(lo as int, hi as int);
    let mut i: usize = lo;
    while i < hi
        invariant
            lo <= i <= hi <= v@.len(),
            s == v@.subrange(lo as int, hi as int),
            first_index_of(s, c) == find_from(s, seq![c], i - lo),
        decreases hi - i,
    {
        proof {
            assert(s.subrange(i - lo, i - lo + 1) =~= seq![v@[i as int]]);
            if v@[i as int] != c {
                assert(seq![v@[i as int]][0] != seq![c][0]);
            }
        }
        if v[i] == c {
            proof {
                assert(s.take(i - lo) =~= v@.subrange(lo as int, i as int));
                assert(s.skip(i - lo + 1) =~= v@.subrange(i + 1, hi as int));
            }
            return (i, Some(i + 1));
        }
        i = i + 1;
    }
    proof {
        assert(s.take(s.len() as int) =~= s);
    }
    (hi, None)
}

/// The five pieces of the signature name `v`.
fn decompose(v: &Vec<char>) -> (r: (
    Option<String>,
    Option<String>,
    Option<String>,
    Option<String>,
    Option<String>,
))
    ensures
        opt_view(r.0) == sig_platform(v@),
        opt_view(r.1) == sig_category(v@),
        opt_view(r.2) == sig_virus(v@),
        opt_view(r.3) == sig_signum(v@),
        opt_view(r.4) == sig_sigversion(v@),
{
    let lo: usize = 0;
    let hi: usize = v.len();
    proof {
        assert(v@.subrange(0, v@.len() as int) == v@);
    }
    let (name_end, version_start) = split_at_first(v, lo, hi, '-');
    let (p_end, rest) = split_at_first(v, lo, name_end, '.');
    let platform = Some(substring(v, lo, p_end));
    let mut category = None;
    let mut virus = None;
    if let Some(c_start) = rest {
        let (c_end, v_start) = split_at_first(v, c_start, name_end, '.');
        category = Some(substring(v, c_start, c_end));
        if let Some(vs) = v_start {
            virus = Some(substring(v, vs, name_end));
        }
    }
    let mut signum = None;
    let mut sigversion = None;
    if let Some(vs) = version_start {
        let (n_end, sv_start) = split_at_first(v, vs, hi, '-');
        signum = Some(substring(v, vs, n_end));
        if let Some(svs) = sv_start {
            sigversion = Some(substring(v, svs, hi));
        }
    }
    (platform, category, virus, signum, sigversion)
}

/// The verdict of one scan record.
#[derive(Debug, Clone, PartialEq)]
pub enum ScanResult {
    /// The scanned path is clean.
    Clean,
    /// Malware was found: the scanned path and the signature that matched.
    Found(String, Signature),
    /// Any other record, kept whole.
    Error(String),
}

/// `t` without the copies of `c` at its end.
pub open spec fn trim_end(t: Seq<char>, c: char) -> Seq<char>
    decreases t.len(),
{
    if t.len() > 0 && t.last() == c {
        trim_end(t.drop_last(), c)
    } else {
        t
    }
}

/// The tokens of `toks` before the first one that begins with `FOUND`,
/// joined without separators.
pub open spec fn tokens_before_found(toks: Seq<Seq<char>>) -> Seq<char>
    decreases toks.len(),
{
    if toks.len() == 0 || has_prefix(toks[0], "FOUND"@) {
        seq![]
    } else {
        toks[0] + tokens_before_found(toks.drop_first())
    }
}

/// The scanned path of a record that reports a find: its first
/// whitespace-separated token, without trailing colons.
pub open spec fn found_path(seg: Seq<char>) -> Seq<char> {
    let t = pieces(seg, false);
    if t.len() == 0 {
        seq![]
    } else {
        trim_end(t[0], ':')
    }
}

/// The signature name of a record that reports a find: the tokens after
/// the path and before the `FOUND` marker, joined.
pub open spec fn found_signature(seg: Seq<char>) -> Seq<char> {
    let t = pieces(seg, false);
    if t.len() == 0 {
        seq![]
    } else {
        tokens_before_found(t.drop_first())
    }
}

/// The records of a reply: its non-empty NUL-separated segments.
pub open spec fn scan_segments(s: Seq<char>) -> Seq<Seq<char>> {
    pieces(s, true)
}

impl ScanResult {
    /// This is the verdict of the record `seg`.
    pub open spec fn is_verdict_of(&self, seg: Seq<char>) -> bool {
        if has_suffix(seg, "OK"@) {
            self is Clean
        } else if contains(seg, "FOUND"@) {
            &&& self is Found
            &&& self->Found_0@ == found_path(seg)
            &&& self->Found_1.is_decomposition_of(found_signature(seg))
        } else {
            self is Error && self->Error_0@ == seg
        }
    }

    /// Parses a reply into one verdict per record, in order.
    pub fn parse(s: &str) -> (r: Vec<ScanResult>)
        ensures
            r@.len() == scan_segments(s@).len(),
            forall|j: int| 0 <= j < r@.len() ==> #[trigger] r@[j].is_verdict_of(scan_segments(s@)[j]),
            forall|j: int|
                0 <= j < r@.len() ==> (#[trigger] r@[j] matches ScanResult::Error(m) ==> m@.len()
                    > 0),
    {
        proof {
            scan_records_are_nonempty(s@);
        }
        let v = chars_of(s);
        let segs = split_pieces(&v, true);
        let mut out: Vec<ScanResult> = Vec::new();
        let mut i: usize = 0;
        while i < segs.len()
            invariant
                i <= segs@.len(),
                v@ == s@,
                segs@.len() == scan_segments(s@).len(),
                forall|j: int| 0 <= j < segs@.len() ==> #[trigger] segs@[j]@ == scan_segments(s@)[j],
                out@.len() == i,
                forall|j: int| 0 <= j < i ==> #[trigger] out@[j].is_verdict_of(scan_segments(s@)[j]),
            decreases segs@.len() - i,
        {
            let r = classify(&segs[i]);
            out.push(r);
            i = i + 1;
        }
        proof {
            assert forall|j: int| 0 <= j < out@.len() implies (#[trigger] out@[j] matches ScanResult::Error(
                m,
            ) ==> m@.len() > 0) by {
                assert(out@[j].is_verdict_of(scan_segments(s@)[j]));
                assert(scan_segments(s@)[j].len() > 0);
            }
        }
        out
    }
}

/// Every record of a reply is non-empty: an empty segment between two NULs,
/// or before the first or after the last, is no record.
pub proof fn scan_records_are_nonempty(s: Seq<char>)
    ensures
        forall|j: int|
            0 <= j < scan_segments(s).len() ==> #[trigger] scan_segments(s)[j].len() > 0,
{
    lemma_pieces_from_nonempty(s, true, 0, 0);
}

/// Whether `v` ends with `p`.
fn ends_with(v: &Vec<char>, p: &Vec<char>) -> (r: bool)
    ensures
        r == has_suffix(v@, p@),
{
    if p.len() > v.len() {
        return false;
    }
    let vlen: usize = v.len();
    let off: usize = vlen - p.len();
    let mut j: usize = 0;
    while j < p.len()
        invariant
            j <= p@.len(),
            vlen == v@.len(),
            off + p@.len() == v@.len(),
            forall|k: int| 0 <= k < j ==> v@[off + k] == p@[k],
        decreases p@.len() - j,
    {
        if v[off + j] != p[j] {
            proof {
                assert(v@.skip(off as int)[j as int] != p@[j as int]);
            }
            return false;
        }
        j = j + 1;
    }
    proof {
        assert(v@.skip(off as int) =~= p@);
    }
    true
}

/// The length of `t` without the copies of `c` at its end.
fn trimmed_len(t: &Vec<char>, c: char) -> (r: usize)
    ensures
        r <= t@.len(),
        trim_end(t@, c) == t@.take(r as int),
{
    let mut e: usize = t.len();
    proof {
        assert(t@.take(e as int) =~= t@);
    }
    while e > 0 && t[e - 1] == c
        invariant
            e <= t@.len(),
            trim_end(t@, c) == trim_end(t@.take(e as int), c),
        decreases e,
    {
        proof {
            assert(t@.take(e as int).drop_last() =~= t@.take(e - 1));
        }
        e = e - 1;
    }
    e
}

/// The signature name of a record, from its whitespace tokens.
fn signature_text(toks: &Vec<Vec<char>>, found: &Vec<char>) -> (r: String)
    requires
        toks@.len() > 0,
        found@ == "FOUND"@,
    ensures
        r@ == tokens_before_found(toks@.map_values(|t: Vec<char>| t@).drop_first()),
{
    let ghost tv = toks@.map_values(|t: Vec<char>| t@);
    let mut acc: Vec<char> = Vec::new();
    let mut k: usize = 1;
    proof {
        assert(tv.drop_first() =~= tv.skip(1));
        assert(acc@ + tokens_before_found(tv.skip(1)) =~= tokens_before_found(tv.skip(1)));
    }
    while k < toks.len() && !starts_with(&toks[k], found)
        invariant
            1 <= k <= toks@.len(),
            found@ == "FOUND"@,
            tv == toks@.map_values(|t: Vec<char>| t@),
            tokens_before_found(tv.drop_first()) == acc@ + tokens_before_found(tv.skip(k as int)),
        decreases toks@.len() - k,
    {
        let tok = &toks[k];
        let ghost before = acc@;
        let mut c: usize = 0;
        while c < tok.len()
            invariant
                c <= tok@.len(),
                acc@ == before + tok@.take(c as int),
            decreases tok@.len() - c,
        {
            acc.push(tok[c]);
            proof {
                assert(tok@.take(c + 1) =~= tok@.take(c as int).push(tok@[c as int]));
                assert(acc@ =~= before + tok@.take(c + 1));
            }
            c = c + 1;
        }
        proof {
            assert(tok@.take(tok@.len() as int) =~= tok@);
            assert(tv.skip(k as int)[0] == tok@);
            assert(tv.skip(k as int).drop_first() =~= tv.skip(k + 1));
            assert(before + (tok@ + tokens_before_found(tv.skip(k + 1))) =~= acc@
                + tokens_before_found(tv.skip(k + 1)));
        }
        k = k + 1;
    }
    proof {
        if k < toks@.len() {
            assert(tv.skip(k as int)[0] == toks@[k as int]@);
        }
        assert(acc@ + seq![] =~= acc@);
    }
    string_of(acc.as_slice())
}

/// The verdict of one non-empty record.
fn classify(seg: &Vec<char>) -> (r: ScanResult)
    ensures
        r.is_verdict_of(seg@),
{
    let ok = chars_of("OK");
    if ends_with(seg, &ok) {
        return ScanResult::Clean;
    }
    let found = chars_of("FOUND");
    if find(seg, &found, 0).is_some() {
        let toks = split_pieces(seg, false);
        let ghost tv = toks@.map_values(|t: Vec<char>| t@);
        proof {
            assert(tv =~= pieces(seg@, false));
        }
        if toks.len() == 0 {
            let sig = Signature::from("");
            proof {
                reveal_strlit("");
                assert(""@ =~= Seq::<char>::empty());
            }
            return ScanResult::Found(String::new(), sig);
        }
        let e = trimmed_len(&toks[0], ':');
        let path = substring(&toks[0], 0, e);
        proof {
            assert(toks@[0]@.subrange(0, e as int) =~= toks@[0]@.take(e as int));
        }
        let name = signature_text(&toks, &found);
        let sig = Signature::from(name.as_str());
        ScanResult::Found(path, sig)
    } else {
        ScanResult::Error(string_of(seg.as_slice()))
    }
}

/// The version reply of the daemon.
#[derive(Debug, PartialEq)]
pub struct Version {
    /// The version tag, such as `ClamAV 0.100.0`.
    pub version_tag: String,
    /// The build number of the signature database.
    pub build_number: u64,
    /// The release date of the signature database, in seconds since the
    /// Unix epoch, UTC.
    pub release_date: i64,
}

/// The instant, in seconds since the Unix epoch, that a release date of the
/// form `Wed Aug  1 08:43:37 2018` names in UTC; `None` where the text does
/// not have that form.
pub uninterp spec fn release_timestamp_of(t: Seq<char>) -> Option<i64>;

/// Relies on chrono's `TimeZone::datetime_from_str` for `Utc` with the
/// pattern `%a %b %e %T %Y`, and on `DateTime::timestamp`: whether the text
/// parses, and the instant it names, depend on the text alone.
#[verifier::external_body]
#[allow(deprecated)]
fn parse_release_date(t: &str) -> (r: Result<i64, chrono::format::ParseError>)
    ensures
        r is Ok <==> release_timestamp_of(t@) is Some,
        r matches Ok(v) ==> release_timestamp_of(t@) == Some(v),
{
    chrono::Utc.datetime_from_str(t, "%a %b %e %T %Y").map(|d| d.timestamp())
}

/// The three `/`-separated fields of a version reply whose trailing NULs
/// are gone; `None` unless there are exactly three.
pub open spec fn version_fields(t: Seq<char>) -> Option<(Seq<char>, Seq<char>, Seq<char>)> {
    match split_first(t, '/').1 {
        Some(r1) => match split_first(r1, '/').1 {
            Some(r2) => if split_first(r2, '/').1 is None {
                Some((split_first(t, '/').0, split_first(r1, '/').0, r2))
            } else {
                None
            },
            None => None,
        },
        None => None,
    }
}

/// The fields of the version reply `s`.
pub open spec fn version_reply_fields(s: Seq<char>) -> Option<(Seq<char>, Seq<char>, Seq<char>)> {
    version_fields(trim_end(s, '\0'))
}

impl Version {
    /// Parses a version reply, `<tag>/<build>/<date>`, with or without
    /// trailing NULs.
    pub fn parse(s: &str) -> (r: Result<Self, ClamError>)
        ensures
            version_reply_fields(s@) is None ==> (r matches Err(e) && e is InvalidData
                && e->InvalidData_0@ == s@),
            version_reply_fields(s@) matches Some(f) ==> {
                &&& u64_of(f.1) is None ==> (r matches Err(e) && e is IntParseError)
                &&& u64_of(f.1) is Some && release_timestamp_of(f.2) is None ==> (r matches Err(
                    e,
                ) && e is DateParseError)
                &&& u64_of(f.1) is Some && release_timestamp_of(f.2) is Some ==> (r matches Ok(v)
                    && v.version_tag@ == f.0 && u64_of(f.1) == Some(v.build_number)
                    && release_timestamp_of(f.2) == Some(v.release_date))
            },
    {
        let v = chars_of(s);
        let e = trimmed_len(&v, '\0');
        let ghost t = v@.take(e as int);
        proof {
            assert(v@.subrange(0, e as int) =~= t);
        }
        let (a_end, r1) = split_at_first(&v, 0, e, '/');
        let b_start = match r1 {
            Some(b) => b,
            None => {
                return Err(ClamError::InvalidData(s.to_owned()));
            },
        };
        let (b_end, r2) = split_at_first(&v, b_start, e, '/');
        let c_start = match r2 {
            Some(c) => c,
            None => {
                return Err(ClamError::InvalidData(s.to_owned()));
            },
        };
        let (_, r3) = split_at_first(&v, c_start, e, '/');
        if r3.is_some() {
            return Err(ClamError::InvalidData(s.to_owned()));
        }
        let tag = substring(&v, 0, a_end);
        let build = substring(&v, b_start, b_end);
        let date = substring(&v, c_start, e);
        let build_number = match parse_u64(build.as_str()) {
            Ok(n) => n,
            Err(err) => {
                return Err(ClamError::IntParseError(err));
            },
        };
        let release_date = match parse_release_date(date.as_str()) {
            Ok(d) => d,
            Err(err) => {
                return Err(ClamError::DateParseError(err));
            },
        };
        Ok(Version { version_tag: tag, build_number, release_date })
    }
}

/// A daemon statistics block.
#[derive(Debug, PartialEq)]
pub struct Stats {
    pub pools: u64,
    pub state: String,
    pub threads_live: u64,
    pub threads_idle: u64,
    pub threads_max: u64,
    pub threads_idle_timeout_secs: u64,
    pub queue: u64,
    pub mem_heap: String,
    pub mem_mmap: String,
    pub mem_used: String,
    pub mem_free: String,
    pub mem_releasable: String,
    pub pools_used: String,
    pub pools_total: String,
}

/// The literal that opens a statistics block.
pub open spec fn stats_head() -> Seq<char> {
    "POOLS: "@
}

/// The anchors of a statistics block, in order: each field is the text up
/// to the next one.
pub open spec fn stats_anchors() -> Seq<Seq<char>> {
    seq![
        "\n\nSTATE: "@, "\nTHREADS: live "@, "  idle "@, " max "@, " idle-timeout "@,
        "\nQUEUE: "@, " items\n"@, "heap "@, " mmap "@, " used "@, " free "@,
        " releasable "@, " pools "@, "pools_used "@, " pools_total "@, "\n"@,
    ]
}

/// The texts before each of `pats`, found in turn from `pos` on, each
/// search going on past the anchor that ended the last; `None` where one
/// anchor is missing.
pub open spec fn scan_fields(s: Seq<char>, pos: int, pats: Seq<Seq<char>>) -> Option<
    Seq<Seq<char>>,
>
    decreases pats.len(),
{
    if pats.len() == 0 {
        Some(seq![])
    } else {
        match find_from(s, pats[0], pos) {
            None => None,
            Some(k) => prepend(
                seq![s.subrange(pos, k)],
                scan_fields(s, k + pats[0].len(), pats.drop_first()),
            ),
        }
    }
}

pub open spec fn prepend(fs: Seq<Seq<char>>, o: Option<Seq<Seq<char>>>) -> Option<Seq<Seq<char>>> {
    match o {
        Some(r) => Some(fs + r),
        None => None,
    }
}

/// The sixteen texts between the anchors of a statistics block.
pub open spec fn stats_fields(s: Seq<char>) -> Option<Seq<Seq<char>>> {
    if has_prefix(s, stats_head()) {
        scan_fields(s, stats_head().len() as int, stats_anchors())
    } else {
        None
    }
}

/// `s` is a statistics block whose every anchor is present and whose
/// numeric fields parse.
pub open spec fn stats_parses(s: Seq<char>) -> bool {
    match stats_fields(s) {
        Some(f) => {
            &&& u64_of(f[0]) is Some
            &&& u64_of(f[2]) is Some
            &&& u64_of(f[3]) is Some
            &&& u64_of(f[4]) is Some
            &&& u64_of(f[5]) is Some
            &&& u64_of(f[6]) is Some
        },
        None => false,
    }
}

impl Stats {
    /// These statistics are what the block `s` holds.
    pub open spec fn is_parse_of(&self, s: Seq<char>) -> bool {
        match stats_fields(s) {
            Some(f) => {
                &&& u64_of(f[0]) == Some(self.pools)
                &&& self.state@ == f[1]
                &&& u64_of(f[2]) == Some(self.threads_live)
                &&& u64_of(f[3]) == Some(self.threads_idle)
                &&& u64_of(f[4]) == Some(self.threads_max)
                &&& u64_of(f[5]) == Some(self.threads_idle_timeout_secs)
                &&& u64_of(f[6]) == Some(self.queue)
                &&& self.mem_heap@ == f[8]
                &&& self.mem_mmap@ == f[9]
                &&& self.mem_used@ == f[10]
                &&& self.mem_free@ == f[11]
                &&& self.mem_releasable@ == f[12]
                &&& self.pools_used@ == f[14]
                &&& self.pools_total@ == f[15]
            },
            None => false,
        }
    }

    /// Parses a statistics block. It fails as a whole, with the block, when
    /// an anchor is missing or a numeric field does not parse.
    pub fn parse(s: &str) -> (r: Result<Self, ClamError>)
        ensures
            r is Ok <==> stats_parses(s@),
            r matches Ok(st) ==> st.is_parse_of(s@),
            r matches Err(e) ==> e is InvalidData && e->InvalidData_0@ == s@,
    {
        match stats_field_texts(s) {
            None => Err(ClamError::InvalidData(s.to_owned())),
            Some(f) => {
                let pools = parse_u64(f[0].as_str());
                let threads_live = parse_u64(f[2].as_str());
                let threads_idle = parse_u64(f[3].as_str());
                let threads_max = parse_u64(f[4].as_str());
                let threads_idle_timeout_secs = parse_u64(f[5].as_str());
                let queue = parse_u64(f[6].as_str());
                match (pools, threads_live, threads_idle, threads_max, threads_idle_timeout_secs, queue) {
                    (Ok(pools), Ok(threads_live), Ok(threads_idle), Ok(threads_max), Ok(threads_idle_timeout_secs), Ok(queue)) => {
                        Ok(Stats {
                            pools,
                            state: f[1].clone(),
                            threads_live,
                            threads_idle,
                            threads_max,
                            threads_idle_timeout_secs,
                            queue,
                            mem_heap: f[8].clone(),
                            mem_mmap: f[9].clone(),
                            mem_used: f[10].clone(),
                            mem_free: f[11].clone(),
                            mem_releasable: f[12].clone(),
                            pools_used: f[14].clone(),
                            pools_total: f[15].clone(),
                        })
                    },
                    _ => Err(ClamError::InvalidData(s.to_owned())),
                }
            },
        }
    }
}

pub open spec fn views(v: Seq<String>) -> Seq<Seq<char>> {
    v.map_values(|x: String| x@)
}

/// Whether `v` begins with `p`.
fn starts_with(v: &Vec<char>, p: &Vec<char>) -> (r: bool)
    ensures
        r == has_prefix(v@, p@),
{
    if p.len() > v.len() {
        return false;
    }
    let mut j: usize = 0;
    while j < p.len()
        invariant
            j <= p@.len() <= v@.len(),
            forall|k: int| 0 <= k < j ==> v@[k] == p@[k],
        decreases p@.len() - j,
    {
        if v[j] != p[j] {
            proof {
                assert(v@.take(p@.len() as int)[j as int] != p@[j as int]);
            }
            return false;
        }
        j = j + 1;
    }
    proof {
        assert(v@.take(p@.len() as int) =~= p@);
    }
    true
}

/// The texts between the anchors of the statistics block `s`.
fn stats_field_texts(s: &str) -> (r: Option<Vec<String>>)
    ensures
        r is Some <==> stats_fields(s@) is Some,
        r matches Some(f) ==> stats_fields(s@) == Some(views(f@)) && f@.len() == 16,
{
    let v = chars_of(s);
    let head = chars_of("POOLS: ");
    if !starts_with(&v, &head) {
        return None;
    }
    let anchors: [&str; 16] = [
        "\n\nSTATE: ", "\nTHREADS: live ", "  idle ", " max ", " idle-timeout ",
        "\nQUEUE: ", " items\n", "heap ", " mmap ", " used ", " free ",
        " releasable ", " pools ", "pools_used ", " pools_total ", "\n",
    ];
    let ghost pats = stats_anchors();
    proof {
        assert(anchors@.map_values(|a: &str| a@) =~= pats);
    }
    let mut fields: Vec<String> = Vec::new();
    let mut pos: usize = head.len();
    let mut i: usize = 0;
    let vlen: usize = v.len();
    proof {
        reveal_strlit("POOLS: ");
        assert(pats.skip(0) =~= pats);
        assert(views(fields@) =~= Seq::<Seq<char>>::empty());
        if let Some(r) = scan_fields(v@, pos as int, pats) {
            assert(Seq::<Seq<char>>::empty() + r =~= r);
        }
    }
    while i < 16
        invariant
            pos <= v@.len(),
            v@ == s@,
            vlen == v@.len(),
            i <= 16,
            fields@.len() == i,
            pats.len() == 16,
            anchors@.map_values(|a: &str| a@) == pats,
            stats_fields(v@) == prepend(views(fields@), scan_fields(v@, pos as int, pats.skip(i as int))),
        decreases 16 - i,
    {
        let pat = chars_of(anchors[i]);
        proof {
            assert(pat@ == pats[i as int]);
            assert(pats.skip(i as int)[0] == pats[i as int]);
            assert(pats.skip(i as int).drop_first() =~= pats.skip(i + 1));
            lemma_find_from_bounds(v@, pat@, pos as int);
        }
        match find(&v, &pat, pos) {
            None => {
                proof {
                    assert(scan_fields(v@, pos as int, pats.skip(i as int)) is None);
                }
                return None;
            },
            Some(k) => {
                let t = substring(&v, pos, k);
                let ghost before = views(fields@);
                fields.push(t);
                proof {
                    assert(views(fields@) =~= before + seq![t@]);
                    let rest = scan_fields(v@, k + pat@.len(), pats.skip(i + 1));
                    if let Some(r) = rest {
                        assert(before + (seq![t@] + r) =~= (before + seq![t@]) + r);
                    }
                }
                pos = k + pat.len();
                i = i + 1;
            },
        }
    }
    proof {
        assert(pats.skip(16) =~= Seq::<Seq<char>>::empty());
        assert(views(fields@) + seq![] =~= views(fields@));
    }
    Some(fields)
}

} // verus!
