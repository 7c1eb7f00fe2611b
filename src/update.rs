use vstd::prelude::*;

verus! {

/// What an update check found out.
pub struct UpdateInfo {
    /// Whether the latest release is newer than the running version.
    pub update_available: bool,
    /// The running version.
    pub current_version: String,
    /// The latest released version, without its leading `v`.
    pub latest_version: String,
    /// Where the release can be read about.
    pub release_url: String,
    /// The release notes, when the release has any.
    pub release_notes: Option<String>,
}

/// The pieces of `s` between occurrences of `sep`, in order; as many as
/// there are separators, plus one.
pub open spec fn split_on(s: Seq<char>, sep: char) -> Seq<Seq<char>>
    decreases s.len(),
{
    if s.len() == 0 {
        seq![Seq::<char>::empty()]
    } else {
        let p = split_on(s.drop_last(), sep);
        if s.last() == sep {
            p.push(Seq::<char>::empty())
        } else {
            p.update(p.len() - 1, p.last().push(s.last()))
        }
    }
}

pub open spec fn is_digit(c: char) -> bool {
    '0' <= c && c <= '9'
}

pub open spec fn all_digits(d: Seq<char>) -> bool {
    forall|i: int| 0 <= i < d.len() ==> is_digit(#[trigger] d[i])
}

/// The number that a run of decimal digits denotes.
pub open spec fn digits_value(d: Seq<char>) -> int
    decreases d.len(),
{
    if d.len() == 0 {
        0
    } else {
        digits_value(d.drop_last()) * 10 + (d.last() as int - '0' as int)
    }
}

/// Decimal reading of a `u32`: an optional `+`, then at least one digit, and a
/// value that fits.
pub open spec fn parse_u32(s: Seq<char>) -> Option<u32> {
    let d = if s.len() > 0 && s[0] == '+' {
        s.drop_first()
    } else {
        s
    };
    if d.len() > 0 && all_digits(d) && digits_value(d) <= u32::MAX {
        Some(digits_value(d) as u32)
    } else {
        None
    }
}

/// The numbers among `segs`, in order; pieces that are no number are skipped.
pub open spec fn numbers_among(segs: Seq<Seq<char>>) -> Seq<u32>
    decreases segs.len(),
{
    if segs.len() == 0 {
        Seq::<u32>::empty()
    } else {
        let rest = numbers_among(segs.drop_last());
        match parse_u32(segs.last()) {
            Some(n) => rest.push(n),
            None => rest,
        }
    }
}

/// The numeric components of a dotted version string.
pub open spec fn version_parts(v: Seq<char>) -> Seq<u32> {
    numbers_among(split_on(v, '.'))
}

/// Component `i`, where missing components count as zero.
pub open spec fn part_or_zero(p: Seq<u32>, i: int) -> int {
    if 0 <= i < p.len() {
        p[i] as int
    } else {
        0
    }
}

/// `a` is greater than `b` in the first component where they differ.
pub open spec fn parts_newer(a: Seq<u32>, b: Seq<u32>) -> bool {
    exists|i: int|
        0 <= i && #[trigger] part_or_zero(a, i) > part_or_zero(b, i) && forall|j: int|
            0 <= j < i ==> part_or_zero(a, j) == part_or_zero(b, j)
}

/// Whether version `latest` is newer than version `current`.
pub open spec fn newer(latest: Seq<char>, current: Seq<char>) -> bool {
    parts_newer(version_parts(latest), version_parts(current))
}

proof fn lemma_digits_prefix(d: Seq<char>)
    requires
        all_digits(d),
        d.len() > 0,
    ensures
        all_digits(d.drop_last()),
        digits_value(d) == digits_value(d.drop_last()) * 10 + (d.last() as int - '0' as int),
        0 <= d.last() as int - '0' as int <= 9,
{
    let p = d.drop_last();
    assert forall|i: int| 0 <= i < p.len() implies is_digit(#[trigger] p[i]) by {
        assert(p[i] == d[i]);
    }
    assert(is_digit(d[d.len() - 1]));
}

proof fn lemma_prefix_value(d: Seq<char>, j: int)
    requires
        all_digits(d),
        0 <= j <= d.len(),
    ensures
        0 <= digits_value(d.take(j)) <= digits_value(d),
    decreases d.len(),
{
    if d.len() == 0 {
        assert(d.take(j) =~= d);
    } else {
        let p = d.drop_last();
        lemma_digits_prefix(d);
        lemma_prefix_value(p, p.len() as int);
        assert(p.take(p.len() as int) =~= p);
        if j == d.len() {
            assert(d.take(j) =~= d);
        } else {
            lemma_prefix_value(p, j);
            assert(p.take(j) =~= d.take(j));
        }
    }
}

/// Reads a `u32` written in decimal, as `str::parse::<u32>` does.
fn parse_decimal(s: &Vec<char>) -> (r: Option<u32>)
    ensures
        r == parse_u32(s@),
{
    let n = s.len();
    let start: usize = if n > 0 && s[0] == '+' {
        1
    } else {
        0
    };
    let ghost d = if n > 0 && s@[0] == '+' {
        s@.drop_first()
    } else {
        s@
    };
    assert(d =~= s@.subrange(start as int, n as int));
    if start == n {
        return None;
    }
    let mut acc: u64 = 0;
    let mut i: usize = start;
    while i < n
        invariant
            start <= i <= n,
            n == s@.len(),
            d =~= s@.subrange(start as int, n as int),
            d == (if n > 0 && s@[0] == '+' {
                s@.drop_first()
            } else {
                s@
            }),
            all_digits(d.take(i - start)),
            acc as int == digits_value(d.take(i - start)),
            acc <= u32::MAX,
        decreases n - i,
    {
        let c = s[i];
        if !('0' <= c && c <= '9') {
            assert(d[i - start] == c);
            assert(!is_digit(d[i - start]));
            return None;
        }
        let k = i - start;
        assert(d.take(k + 1).drop_last() =~= d.take(k as int));
        let next = acc * 10 + (c as u64 - '0' as u64);
        assert(next as int == digits_value(d.take(k + 1)));
        assert(all_digits(d.take(k + 1)));
        if next > u32::MAX as u64 {
            proof {
                if all_digits(d) {
                    lemma_prefix_value(d, k + 1);
                }
            }
            return None;
        }
        acc = next;
        i = i + 1;
    }
    assert(d.take(n - start) =~= d);
    Some(acc as u32)
}

/// The numeric components of a dotted version string: the pieces between
/// dots that read as a `u32`, in order.
fn parse_version(v: &str) -> (r: Vec<u32>)
    ensures
        r@ == version_parts(v@),
{
    let n = v.unicode_len();
    let mut parts: Vec<u32> = Vec::new();
    let mut cur: Vec<char> = Vec::new();
    let ghost mut done: Seq<Seq<char>> = Seq::empty();
    let mut i: usize = 0;
    assert(v@.take(0) =~= Seq::<char>::empty());
    while i < n
        invariant
            n == v@.len(),
            i <= n,
            split_on(v@.take(i as int), '.') == done.push(cur@),
            parts@ == numbers_among(done),
        decreases n - i,
    {
        let c = v.get_char(i);
        assert(v@.take(i + 1).drop_last() =~= v@.take(i as int));
        assert(v@.take(i + 1).last() == c);
        if c == '.' {
            let p = parse_decimal(&cur);
            assert(done.push(cur@).drop_last() =~= done);
            if let Some(x) = p {
                parts.push(x);
            }
            proof {
                done = done.push(cur@);
            }
            cur = Vec::new();
            assert(cur@ =~= Seq::<char>::empty());
        } else {
            cur.push(c);
        }
        i = i + 1;
    }
    assert(v@.take(n as int) =~= v@);
    let p = parse_decimal(&cur);
    assert(done.push(cur@).drop_last() =~= done);
    if let Some(x) = p {
        parts.push(x);
    }
    parts
}

/// Whether version `latest` is newer than version `current`: the first
/// numeric component in which they differ is larger in `latest`, where a
/// missing component counts as zero.
pub fn is_newer_version(latest: &str, current: &str) -> (r: bool)
    ensures
        r == newer(latest@, current@),
{
    let a = parse_version(latest);
    let b = parse_version(current);
    let n = if a.len() > b.len() {
        a.len()
    } else {
        b.len()
    };
    let mut i: usize = 0;
    while i < n
        invariant
            i <= n,
            a@ == version_parts(latest@),
            b@ == version_parts(current@),
            n == a@.len() || n == b@.len(),
            a@.len() <= n,
            b@.len() <= n,
            forall|j: int| 0 <= j < i ==> part_or_zero(a@, j) == part_or_zero(b@, j),
        decreases n - i,
    {
        let x: u32 = if i < a.len() {
            a[i]
        } else {
            0
        };
        let y: u32 = if i < b.len() {
            b[i]
        } else {
            0
        };
        assert(x as int == part_or_zero(a@, i as int));
        assert(y as int == part_or_zero(b@, i as int));
        if x > y {
            assert(part_or_zero(a@, i as int) > part_or_zero(b@, i as int));
            assert(parts_newer(a@, b@));
            return true;
        } else if x < y {
            proof {
                lemma_first_difference_smaller(a@, b@, i as int);
            }
            return false;
        }
        i = i + 1;
    }
    assert forall|k: int| 0 <= k implies #[trigger] part_or_zero(a@, k) <= part_or_zero(b@, k) by {
        if k >= n {
        }
    }
    false
}

proof fn lemma_first_difference_smaller(a: Seq<u32>, b: Seq<u32>, i: int)
    requires
        0 <= i,
        part_or_zero(a, i) < part_or_zero(b, i),
        forall|j: int| 0 <= j < i ==> part_or_zero(a, j) == part_or_zero(b, j),
    ensures
        !parts_newer(a, b),
{
    if parts_newer(a, b) {
        let k = choose|k: int|
            0 <= k && #[trigger] part_or_zero(a, k) > part_or_zero(b, k) && forall|j: int|
                0 <= j < k ==> part_or_zero(a, j) == part_or_zero(b, j);
        if k > i {
            assert(part_or_zero(a, i) == part_or_zero(b, i));
        } else if k < i {
            assert(part_or_zero(a, k) == part_or_zero(b, k));
        }
    }
}

/// No version is newer than itself.
pub proof fn lemma_newer_irreflexive(v: Seq<char>)
    ensures
        !newer(v, v),
{
}

/// Of two versions, at most one is newer than the other.
pub proof fn lemma_newer_asymmetric(a: Seq<char>, b: Seq<char>)
    ensures
        !(newer(a, b) && newer(b, a)),
{
    let pa = version_parts(a);
    let pb = version_parts(b);
    if newer(a, b) && newer(b, a) {
        let i = choose|i: int|
            0 <= i && #[trigger] part_or_zero(pa, i) > part_or_zero(pb, i) && forall|j: int|
                0 <= j < i ==> part_or_zero(pa, j) == part_or_zero(pb, j);
        let k = choose|k: int|
            0 <= k && #[trigger] part_or_zero(pb, k) > part_or_zero(pa, k) && forall|j: int|
                0 <= j < k ==> part_or_zero(pb, j) == part_or_zero(pa, j);
        if i < k {
            assert(part_or_zero(pb, i) == part_or_zero(pa, i));
        } else if k < i {
            assert(part_or_zero(pa, k) == part_or_zero(pb, k));
        }
    }
}

/// Where the project's releases are listed.
pub const RELEASES_URL: &'static str = "https://github.com/daigotanaka0714/image-crunch/releases";

/// `s` without the `v` characters at its start.
pub open spec fn without_leading_v(s: Seq<char>) -> Seq<char>
    decreases s.len(),
{
    if s.len() > 0 && s[0] == 'v' {
        without_leading_v(s.drop_first())
    } else {
        s
    }
}

/// `v` without the `v` characters at its start, as `trim_start_matches('v')`.
pub fn trim_version_prefix(v: &str) -> (r: String)
    ensures
        r@ == without_leading_v(v@),
{
    let n = v.unicode_len();
    let mut i: usize = 0;
    assert(v@.subrange(0, n as int) =~= v@);
    while i < n && v.get_char(i) == 'v'
        invariant
            n == v@.len(),
            i <= n,
            without_leading_v(v@) == without_leading_v(v@.subrange(i as int, n as int)),
        decreases n - i,
    {
        assert(v@.subrange(i as int, n as int).drop_first() =~= v@.subrange(i + 1, n as int));
        i = i + 1;
    }
    String::from_str(v.substring_char(i, n))
}

/// What the answer to a request for the latest release means.
#[derive(Debug, Clone, Copy, PartialEq, Eq, Structural)]
pub enum ReleaseStatus {
    /// There is a latest release to read.
    Found,
    /// There is no release yet.
    NoRelease,
    /// The request failed.
    Failed,
}

/// What an HTTP status means for a request for the latest release: 404
/// means there is none yet, 2xx that there is one.
pub open spec fn status_meaning(status: u16) -> ReleaseStatus {
    if status == 404 {
        ReleaseStatus::NoRelease
    } else if 200 <= status <= 299 {
        ReleaseStatus::Found
    } else {
        ReleaseStatus::Failed
    }
}

/// What an HTTP status means for a request for the latest release.
pub fn release_status(status: u16) -> (r: ReleaseStatus)
    ensures
        r == status_meaning(status),
{
    if status == 404 {
        ReleaseStatus::NoRelease
    } else if 200 <= status && status <= 299 {
        ReleaseStatus::Found
    } else {
        ReleaseStatus::Failed
    }
}

/// The answer when nothing has been released yet: no update, and the
/// release list to look at.
pub fn no_release_info(current_version: &str) -> (r: UpdateInfo)
    ensures
        !r.update_available,
        r.current_version@ == current_version@,
        r.latest_version@ == current_version@,
        r.release_url@ == RELEASES_URL@,
        r.release_notes is None,
{
    UpdateInfo {
        update_available: false,
        current_version: String::from_str(current_version),
        latest_version: String::from_str(current_version),
        release_url: String::from_str(RELEASES_URL),
        release_notes: None,
    }
}

/// The answer for a latest release tagged `tag_name`: an update is available
/// when that version, without its leading `v`, is newer than the running one.
pub fn update_info_from_release(
    current_version: &str,
    tag_name: &str,
    html_url: String,
    body: Option<String>,
) -> (r: UpdateInfo)
    ensures
        r.update_available == newer(without_leading_v(tag_name@), without_leading_v(current_version@)),
        r.current_version@ == current_version@,
        r.latest_version@ == without_leading_v(tag_name@),
        r.release_url == html_url,
        r.release_notes == body,
{
    let latest_version = trim_version_prefix(tag_name);
    let current = trim_version_prefix(current_version);
    let update_available = is_newer_version(latest_version.as_str(), current.as_str());
    UpdateInfo {
        update_available,
        current_version: String::from_str(current_version),
        latest_version,
        release_url: html_url,
        release_notes: body,
    }
}

} // verus!
