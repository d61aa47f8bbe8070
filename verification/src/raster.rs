//! The rasterizer adapter's logic: which page files the external
//! PDF-to-JPEG tool produced, and in what order they are reported.
//!
//! The tool renders at most pages 0 through 100 of one document into
//! `./tmp/{name}/0.jpg` (single page) or `./tmp/{name}/0-{i}.jpg`
//! (multiple pages). Probing the filesystem is I/O; callers pass in
//! which of those files exist and this module decides, verified, what
//! the ordered page list is.

use vstd::prelude::*;
use vstd::string::StringExecFns;

use crate::text::dec_of;
use crate::text::u64_to_dec;

verus! {

/// The error carried when the rasterizer process exits nonzero: its
/// standard error output.
pub struct MagickError(pub String);

impl MagickError {
    /// The rasterizer's message.
    pub fn message(&self) -> (r: &str)
        ensures
            r@ == self.0@,
    {
        self.0.as_str()
    }
}

/// `./tmp/{name}/0.jpg`, the single-page output file.
pub open spec fn spec_single_page_path(name: Seq<char>) -> Seq<char> {
    "./tmp/"@ + name + "/0.jpg"@
}

/// `./tmp/{name}/0-{i}.jpg`, the file of page `i` of a multi-page render.
pub open spec fn spec_page_path(name: Seq<char>, i: int) -> Seq<char> {
    "./tmp/"@ + name + "/0-"@ + dec_of(i) + ".jpg"@
}

/// How many consecutive page files exist from index `i` on, counting no
/// index past 100.
pub open spec fn spec_page_count_from(multi: Seq<bool>, i: int) -> int
    decreases 101 - i,
{
    if i < 0 || i >= 101 || i >= multi.len() || !multi[i] {
        i
    } else {
        spec_page_count_from(multi, i + 1)
    }
}

/// How many pages the enumeration reports: the run of consecutive
/// existing page files starting at index 0, capped at 101.
pub open spec fn spec_page_count(multi: Seq<bool>) -> int {
    spec_page_count_from(multi, 0)
}

/// The page count never exceeds 101 pages nor the probed range.
pub proof fn lemma_page_count_bounds(multi: Seq<bool>)
    ensures
        0 <= spec_page_count(multi) <= 101,
        spec_page_count(multi) <= multi.len(),
{
    lemma_page_count_from_bounds(multi, 0);
}

proof fn lemma_page_count_from_bounds(multi: Seq<bool>, i: int)
    requires
        0 <= i <= 101,
        i <= multi.len(),
    ensures
        i <= spec_page_count_from(multi, i) <= 101,
        spec_page_count_from(multi, i) <= multi.len(),
    decreases 101 - i,
{
    if !(i >= 101 || i >= multi.len() || !multi[i]) {
        lemma_page_count_from_bounds(multi, i + 1);
    }
}

fn single_page_path(name: &str) -> (r: String)
    ensures
        r@ == spec_single_page_path(name@),
{
    let mut r = String::from_str("./tmp/");
    r.append(name);
    r.append("/0.jpg");
    r
}

fn page_path(name: &str, i: u64) -> (r: String)
    ensures
        r@ == spec_page_path(name@, i as int),
{
    let mut r = String::from_str("./tmp/");
    r.append(name);
    r.append("/0-");
    r.append(u64_to_dec(i).as_str());
    r.append(".jpg");
    r
}

/// The ordered list of page files the rasterizer produced for one
/// document: the single-page file if it exists, then the consecutive
/// multi-page files `0-0.jpg, 0-1.jpg, …`, stopping at the first
/// missing index and never past index 100.
///
/// `single_exists` says whether `./tmp/{input}/0.jpg` exists;
/// `multi_exists[i]` says whether `./tmp/{input}/0-{i}.jpg` exists.
pub fn get_converted_files(input: &str, single_exists: bool, multi_exists: &Vec<bool>) -> (r: Vec<
    String,
>)
    ensures
        r@.len() == (if single_exists {
            1int
        } else {
            0int
        }) + spec_page_count(multi_exists@),
        single_exists ==> r@[0]@ == spec_single_page_path(input@),
        single_exists ==> forall|k: int|
            0 <= k < spec_page_count(multi_exists@) ==> (#[trigger] r@[k + 1])@ == spec_page_path(
                input@,
                k,
            ),
        !single_exists ==> forall|k: int|
            0 <= k < spec_page_count(multi_exists@) ==> (#[trigger] r@[k])@ == spec_page_path(
                input@,
                k,
            ),
{
    let mut r: Vec<String> = Vec::new();
    if single_exists {
        r.push(single_page_path(input));
    }
    let ghost offset: int = if single_exists {
        1int
    } else {
        0int
    };
    let n = multi_exists.len();
    let mut i: usize = 0;
    while i <= 100 && i < n && multi_exists[i]
        invariant
            0 <= i <= 101,
            i <= n,
            n == multi_exists@.len(),
            offset == (if single_exists {
                1int
            } else {
                0int
            }),
            r@.len() == offset + i,
            single_exists ==> r@[0]@ == spec_single_page_path(input@),
            forall|k: int| 0 <= k < i ==> (#[trigger] r@[k + offset])@ == spec_page_path(input@, k),
            spec_page_count(multi_exists@) == spec_page_count_from(multi_exists@, i as int),
        decreases 101 - i,
    {
        r.push(page_path(input, i as u64));
        i = i + 1;
    }
    proof {
        assert(spec_page_count_from(multi_exists@, i as int) == i as int);
        if !single_exists {
            assert forall|k: int| 0 <= k < spec_page_count(multi_exists@) implies (
            #[trigger] r@[k])@ == spec_page_path(input@, k) by {
                assert(r@[k + offset]@ == spec_page_path(input@, k));
                assert(k + offset == k);
            }
        }
    }
    r
}

} // verus!
