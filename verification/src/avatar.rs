//! Pictures of authors: which are asked for, under which name, and what is known of each.

use crate::oid::{self, push_hex};
use crate::text::{self, to_lowercase, trimmed};
use crate::text_map::{self, TextMap};
use vstd::prelude::*;
use vstd::string::*;

verus! {

/// Side length of the avatar image we request from Gravatar and store
/// in cache.
pub const AVATAR_PIXELS: u32 = 64;

/// How many bytes a picture takes: four for each of its pixels.
pub const AVATAR_BYTES: usize = 16384;

/// What is known of a picture.
#[derive(Debug)]
pub enum AvatarState {
    InFlight,
    /// Its pixels.
    Loaded(Vec<u8>),
    Failed,
}

/// What came of asking for a picture.
#[derive(Debug)]
pub struct DownloadResult {
    pub email_key: String,
    pub pixels: Option<Vec<u8>>,
}

/// The address under which a picture is kept: without white space around it, in lower case.
pub open spec fn key_of(email: Seq<char>) -> Seq<char> {
    text::lowercase(text::trim(email))
}

fn make_key(email: &str) -> (r: String)
    ensures
        r@ == key_of(email@),
{
    to_lowercase(trimmed(email).as_str())
}

/// What is known of a picture once it came: it is there where it has the right size.
pub open spec fn state_after(pixels: Option<Vec<u8>>) -> AvatarState {
    match pixels {
        Some(p) => if p@.len() == AVATAR_BYTES {
            AvatarState::Loaded(p)
        } else {
            AvatarState::Failed
        },
        None => AvatarState::Failed,
    }
}

fn state_from(pixels: Option<Vec<u8>>) -> (r: AvatarState)
    ensures
        r == state_after(pixels),
{
    match pixels {
        Some(p) => if p.len() == AVATAR_BYTES {
            AvatarState::Loaded(p)
        } else {
            AvatarState::Failed
        },
        None => AvatarState::Failed,
    }
}

/// What is known of all pictures that were asked for.
pub struct AvatarCache {
    pub states: TextMap<AvatarState>,
}

impl AvatarCache {
    /// Whether every picture that is there has the right size.
    pub open spec fn wf(self) -> bool {
        &&& self.states.wf()
        &&& forall|i: int|
            0 <= i < self.states.list().len() ==> ((#[trigger] self.states.list()[i]).1 is Loaded
                ==> self.states.list()[i].1->Loaded_0@.len() == AVATAR_BYTES)
    }

    /// No picture was asked for yet.
    pub fn new() -> (r: Self)
        ensures
            r.wf(),
            r.states.list().len() == 0,
    {
        AvatarCache { states: TextMap::new() }
    }

    /// Ask for the picture of an address, given the key it is kept under. Returns whether it
    /// has to be downloaded: only where it was not asked for before.
    pub fn request_key(&mut self, key: &str) -> (r: bool)
        requires
            old(self).wf(),
        ensures
            final(self).wf(),
            r == (key@.len() > 0 && !old(self).states.has(key@)),
            final(self).states.list() == (if r {
                text_map::put(old(self).states.list(), key@, AvatarState::InFlight)
            } else {
                old(self).states.list()
            }),
    {
        if key.is_empty() || self.states.get(key).is_some() {
            return false;
        }
        self.states.insert(key.to_owned(), AvatarState::InFlight);
        proof {
            text_map::lemma_key_index(old(self).states.list(), key@);
        }
        true
    }

    /// Spawn a download for this email if we haven't already: the key to download, if any.
    pub fn request(&mut self, email: &str) -> (r: Option<String>)
        requires
            old(self).wf(),
        ensures
            final(self).wf(),
            ({
                let key = key_of(email@);
                let wanted = key.len() > 0 && !old(self).states.has(key);
                &&& text::opt_view(r) == (if wanted {
                    Some(key)
                } else {
                    None
                })
                &&& final(self).states.list() == (if wanted {
                    text_map::put(old(self).states.list(), key, AvatarState::InFlight)
                } else {
                    old(self).states.list()
                })
            }),
    {
        let key = make_key(email);
        if self.request_key(key.as_str()) {
            Some(key)
        } else {
            None
        }
    }

    /// Whether the picture kept under `key` has to be downloaded when it is needed at once:
    /// not where it is there already or could not be had.
    pub fn prefetch_needed(&self, key: &str) -> (r: bool)
        ensures
            r == (key@.len() > 0 && !(self.states.has(key@) && !(self.states.at(
                key@,
            ) is InFlight))),
    {
        if key.is_empty() {
            return false;
        }
        match self.states.get(key) {
            Some(AvatarState::Loaded(_)) => false,
            Some(AvatarState::Failed) => false,
            _ => true,
        }
    }

    /// The key to download at once for this email, if any: none where the picture is there
    /// already or could not be had.
    pub fn prefetch_sync(&self, email: &str) -> (r: Option<String>)
        ensures
            ({
                let key = key_of(email@);
                let known = self.states.has(key) && !(self.states.at(key) is InFlight);
                text::opt_view(r) == (if key.len() > 0 && !known {
                    Some(key)
                } else {
                    None
                })
            }),
    {
        let key = make_key(email);
        if self.prefetch_needed(key.as_str()) {
            Some(key)
        } else {
            None
        }
    }

    /// Take over one picture that came, or could not be had.
    pub fn complete(&mut self, result: DownloadResult)
        requires
            old(self).wf(),
        ensures
            final(self).wf(),
            final(self).states.list() == text_map::put(
                old(self).states.list(),
                result.email_key@,
                state_after(result.pixels),
            ),
    {
        let state = state_from(result.pixels);
        self.states.insert(result.email_key, state);
        proof {
            text_map::lemma_key_index(old(self).states.list(), result.email_key@);
        }
    }

    /// Drain every completion ready this tick. Returns true if any
    /// new avatars landed, so that there is something new to draw; a download that failed
    /// brings none.
    pub fn drain_completions(&mut self, results: Vec<DownloadResult>) -> (r: bool)
        requires
            old(self).wf(),
        ensures
            final(self).wf(),
            r == some_landed(results@),
            final(self).states.list() == after_all(old(self).states.list(), results@),
    {
        let mut any = false;
        let ghost all = results@;
        let ghost start = self.states.list();
        assert(all.take(0) =~= Seq::empty());
        for x in it: results
            invariant
                it.seq() == all,
                self.wf(),
                self.states.list() == after_all(start, all.take(it.index() as int)),
                any == some_landed(all.take(it.index() as int)),
        {
            proof {
                let i = it.index() as int;
                assert(all.take(i + 1).drop_last() =~= all.take(i));
                assert(all.take(i + 1).last() == x);
                lemma_landed(all.take(i), x);
                assert(all.take(i).push(x) =~= all.take(i + 1));
            }
            if let Some(p) = &x.pixels {
                if p.len() == AVATAR_BYTES {
                    any = true;
                }
            }
            self.complete(x);
        }
        assert(all.take(all.len() as int) =~= all);
        any
    }

    /// Loaded pixels for this email, if present.
    pub fn get(&self, email: &str) -> (r: Option<&Vec<u8>>)
        ensures
            match r {
                Some(p) => self.states.has(key_of(email@)) && self.states.at(key_of(email@))
                    == AvatarState::Loaded(*p),
                None => !(self.states.has(key_of(email@)) && self.states.at(
                    key_of(email@),
                ) is Loaded),
            },
    {
        let key = make_key(email);
        match self.states.get(key.as_str()) {
            Some(AvatarState::Loaded(p)) => Some(p),
            _ => None,
        }
    }
}

/// Whether a picture came with one of `results`.
pub open spec fn some_landed(results: Seq<DownloadResult>) -> bool {
    exists|i: int| 0 <= i < results.len() && state_after((#[trigger] results[i]).pixels) is Loaded
}

proof fn lemma_landed(results: Seq<DownloadResult>, x: DownloadResult)
    ensures
        some_landed(results.push(x)) == (some_landed(results) || state_after(x.pixels) is Loaded),
{
    let all = results.push(x);
    if some_landed(results) {
        let i = choose|i: int|
            0 <= i < results.len() && state_after((#[trigger] results[i]).pixels) is Loaded;
        assert(all[i] == results[i]);
    }
    if state_after(x.pixels) is Loaded {
        assert(all[results.len() as int] == x);
    }
    if some_landed(all) {
        let i = choose|i: int|
            0 <= i < all.len() && state_after((#[trigger] all[i]).pixels) is Loaded;
        if i < results.len() {
            assert(results[i] == all[i]);
        }
    }
}

/// What is known once all of `results` came, one after the other.
pub open spec fn after_all(
    list: Seq<(Seq<char>, AvatarState)>,
    results: Seq<DownloadResult>,
) -> Seq<(Seq<char>, AvatarState)>
    decreases results.len(),
{
    if results.len() == 0 {
        list
    } else {
        let r = results.last();
        text_map::put(
            after_all(list, results.drop_last()),
            r.email_key@,
            state_after(r.pixels),
        )
    }
}

/// A picture that was asked for is known of from then on, so that it is never asked for
/// twice.
pub proof fn pictures_are_asked_for_once(list: Seq<(Seq<char>, AvatarState)>, key: Seq<char>)
    requires
        text_map::keys_of(list).no_duplicates(),
    ensures
        text_map::keys_of(text_map::put(list, key, AvatarState::InFlight)).contains(key),
{
    text_map::put_is_found(list, key, AvatarState::InFlight);
}

/// What is known last of a picture is what came last: a picture of the right size is there
/// afterwards, any other has failed.
pub proof fn what_came_is_known(
    list: Seq<(Seq<char>, AvatarState)>,
    key: Seq<char>,
    pixels: Option<Vec<u8>>,
)
    requires
        text_map::keys_of(list).no_duplicates(),
    ensures
        ({
            let after = text_map::put(list, key, state_after(pixels));
            let i = text_map::key_index(after, key);
            i < after.len() && after[i] == (key, state_after(pixels))
        }),
{
    text_map::put_is_found(list, key, state_after(pixels));
}

// ---------------------------------------------------------------------------
// Downloading
// ---------------------------------------------------------------------------

/// The MD5 digest of some bytes, as the `md5` crate computes it.
pub uninterp spec fn md5_digest(bytes: Seq<u8>) -> Seq<u8>;

/// `md5::compute`. The digest is a function of the bytes alone, named `md5_digest`, and it is
/// sixteen bytes long.
#[verifier::external_body]
fn md5_of(bytes: &[u8]) -> (r: Vec<u8>)
    ensures
        r@ == md5_digest(bytes@),
        r@.len() == 16,
{
    md5::compute(bytes).0.to_vec()
}

/// Bytes, each as two hexadecimal digits.
pub open spec fn hex_text(bytes: Seq<u8>) -> Seq<char>
    decreases bytes.len(),
{
    if bytes.len() == 0 {
        Seq::empty()
    } else {
        hex_text(bytes.drop_last()) + oid::hex(bytes.last() as nat, 2)
    }
}

/// Bytes, each as two hexadecimal digits.
pub fn hex_string(bytes: &Vec<u8>) -> (r: String)
    ensures
        r@ == hex_text(bytes@),
{
    let mut r = String::new();
    let mut i: usize = 0;
    assert(r@ =~= hex_text(bytes@.take(0)));
    while i < bytes.len()
        invariant
            i <= bytes.len(),
            r@ == hex_text(bytes@.take(i as int)),
        decreases bytes.len() - i,
    {
        proof {
            assert(bytes@.take(i + 1).drop_last() =~= bytes@.take(i as int));
            assert(bytes@.take(i + 1).last() == bytes@[i as int]);
        }
        push_hex(&mut r, bytes[i] as u64, 2);
        i = i + 1;
    }
    assert(bytes@.take(bytes@.len() as int) =~= bytes@);
    r
}

/// The name of the picture of an address: the digits of its digest.
pub open spec fn picture_name(key: Seq<char>) -> Seq<char> {
    hex_text(md5_digest(vstd::utf8::encode_utf8(key)))
}

/// The name of the picture of an address.
pub fn picture_hash(key: &str) -> (r: String)
    ensures
        r@ == picture_name(key@),
{
    hex_string(&md5_of(key.as_bytes()))
}

/// The name of the file that a picture is kept in.
pub fn cache_file_name(hash: &str) -> (r: String)
    ensures
        r@ == hash@ + ".png"@,
{
    let mut r = hash.to_owned();
    r.append(".png");
    r
}

/// Where a picture is downloaded from. Where there is none, the answer says so, rather than
/// giving some other picture.
pub fn picture_url(hash: &str) -> (r: String)
    ensures
        r@ == "https://www.gravatar.com/avatar/"@ + hash@ + "?s="@ + text::dec(
            AVATAR_PIXELS as nat,
        ) + "&d=404"@,
{
    let mut r = "https://www.gravatar.com/avatar/".to_owned();
    r.append(hash);
    r.append("?s=");
    crate::text::push_dec(&mut r, AVATAR_PIXELS as u64);
    r.append("&d=404");
    r
}

/// Whether `bytes` hold a picture that `image::load_from_memory` reads.
pub uninterp spec fn holds_picture(bytes: Seq<u8>) -> bool;

/// `image::load_from_memory`, `resize_exact` with the Lanczos filter, and `to_rgba8`. Whether
/// the bytes hold a picture is a function of them alone, named `holds_picture`; where they do,
/// what comes out has four bytes for each of its `side` times `side` pixels. The values of the
/// pixels are left unsaid: the filter computes with floating-point numbers.
#[verifier::external_body]
fn decode_picture(bytes: &Vec<u8>, side: u32) -> (r: Option<Vec<u8>>)
    requires
        0 < side <= 1024,
    ensures
        r is Some <==> holds_picture(bytes@),
        r is Some ==> r->0@.len() == side * side * 4,
{
    let filter = image::imageops::FilterType::Lanczos3;
    match image::load_from_memory(bytes) {
        Ok(img) => Some(img.resize_exact(side, side, filter).to_rgba8().into_raw()),
        Err(_) => None,
    }
}

/// Whether `bytes` hold a picture that `image::load_from_memory_with_format` reads as a PNG.
pub uninterp spec fn holds_png(bytes: Seq<u8>) -> bool;

/// `image::load_from_memory_with_format` for the PNG format, `resize_exact` with the Lanczos
/// filter, and `to_rgba8`. Whether the bytes hold a PNG is a function of them alone, named
/// `holds_png`; where they do, what comes out has four bytes for each of its `side` times
/// `side` pixels. The values of the pixels are left unsaid: the filter computes with
/// floating-point numbers.
#[verifier::external_body]
fn decode_png(bytes: &Vec<u8>, side: u32) -> (r: Option<Vec<u8>>)
    requires
        0 < side <= 1024,
    ensures
        r is Some <==> holds_png(bytes@),
        r is Some ==> r->0@.len() == side * side * 4,
{
    let filter = image::imageops::FilterType::Lanczos3;
    match image::load_from_memory_with_format(bytes, image::ImageFormat::Png) {
        Ok(img) => Some(img.resize_exact(side, side, filter).to_rgba8().into_raw()),
        Err(_) => None,
    }
}

/// The picture in the answer to a download: none unless all went well and the bytes hold one.
/// A picture that is there has the right size.
pub fn picture_from_answer(status: u16, bytes: &Vec<u8>) -> (r: Option<Vec<u8>>)
    ensures
        r is Some <==> status == 200 && holds_picture(bytes@),
        match r {
            Some(p) => p@.len() == AVATAR_BYTES && state_after(r) is Loaded,
            None => state_after(r) is Failed,
        },
{
    if status != 200 {
        return None;
    }
    decode_picture(bytes, AVATAR_PIXELS)
}

/// The picture in a file that was kept. Such a file is named as a PNG and is read as one: there
/// is no picture unless its bytes hold a PNG, whatever other picture they hold. A picture that
/// is there has the right size.
pub fn picture_from_file(bytes: &Vec<u8>) -> (r: Option<Vec<u8>>)
    ensures
        r is Some <==> holds_png(bytes@),
        match r {
            Some(p) => p@.len() == AVATAR_BYTES && state_after(r) is Loaded,
            None => state_after(r) is Failed,
        },
{
    decode_png(bytes, AVATAR_PIXELS)
}

/// The parts of the path of the directory that pictures are kept in: below the user's cache,
/// or else below the user's home.
pub fn avatar_cache_dir(cache: Option<String>, home: Option<String>) -> (r: Vec<String>)
    ensures
        text::views(r@) == (match text::opt_view(cache) {
            Some(c) => seq![c],
            None => seq![
                match text::opt_view(home) {
                    Some(h) => h,
                    None => "/tmp"@,
                },
                ".cache"@,
            ],
        }) + seq!["whisper-git"@, "avatars"@],
{
    let ghost c = text::opt_view(cache);
    let ghost h = text::opt_view(home);
    let mut r: Vec<String> = Vec::new();
    match cache {
        Some(x) => {
            r.push(x);
        },
        None => {
            r.push(
                match home {
                    Some(x) => x,
                    None => "/tmp".to_owned(),
                },
            );
            r.push(".cache".to_owned());
        },
    }
    r.push("whisper-git".to_owned());
    r.push("avatars".to_owned());
    assert(text::views(r@) =~= (match c {
        Some(x) => seq![x],
        None => seq![
            match h {
                Some(y) => y,
                None => "/tmp"@,
            },
            ".cache"@,
        ],
    }) + seq!["whisper-git"@, "avatars"@]);
    r
}

/// A picture is kept exactly where it has its four bytes for each of its pixels, and then as it
/// came; anything else is a failure.
pub proof fn only_whole_pictures_are_kept(pixels: Option<Vec<u8>>)
    ensures
        state_after(pixels) is Loaded <==> pixels is Some && pixels->0@.len() == 4 * AVATAR_PIXELS
            * AVATAR_PIXELS,
        state_after(pixels) is Loaded ==> state_after(pixels)->Loaded_0@ == pixels->0@,
        !(state_after(pixels) is Loaded) ==> state_after(pixels) is Failed,
{
}

/// White space around an address makes no difference to its picture.
pub proof fn white_space_makes_no_difference(email: Seq<char>, c: char)
    requires
        text::is_white(c),
    ensures
        key_of(seq![c] + email) == key_of(email),
{
    text::lemma_white_begin(email, c);
}

/// What came last for an address is what is known of it, and what came for others leaves it alone.
pub proof fn what_came_last_is_known(
    list: Seq<(Seq<char>, AvatarState)>,
    results: Seq<DownloadResult>,
    last: DownloadResult,
    other: Seq<char>,
)
    requires
        text_map::keys_of(list).no_duplicates(),
        other != last.email_key@,
    ensures
        ({
            let before = after_all(list, results);
            let after = after_all(list, results.push(last));
            let k = text_map::key_index(after, last.email_key@);
            let i = text_map::key_index(before, other);
            &&& k < after.len() && after[k] == (last.email_key@, state_after(last.pixels))
            &&& i < before.len() ==> text_map::key_index(after, other) == i && after[i] == before[i]
        }),
        after_all(list, Seq::empty()) == list,
{
    assert(results.push(last).drop_last() =~= results);
    lemma_after_all_keys(list, results);
    let before = after_all(list, results);
    text_map::put_is_found(before, last.email_key@, state_after(last.pixels));
    text_map::put_leaves_other_keys_alone(
        before,
        last.email_key@,
        state_after(last.pixels),
        other,
    );
}

proof fn lemma_after_all_keys(list: Seq<(Seq<char>, AvatarState)>, results: Seq<DownloadResult>)
    requires
        text_map::keys_of(list).no_duplicates(),
    ensures
        text_map::keys_of(after_all(list, results)).no_duplicates(),
    decreases results.len(),
{
    if results.len() > 0 {
        lemma_after_all_keys(list, results.drop_last());
        text_map::put_is_found(
            after_all(list, results.drop_last()),
            results.last().email_key@,
            state_after(results.last().pixels),
        );
    }
}

/// Bytes are written with two digits each, one after the other.
pub proof fn each_byte_is_written_with_two_digits(bytes: Seq<u8>, b: u8)
    ensures
        hex_text(bytes.push(b)).len() == hex_text(bytes).len() + 2,
        hex_text(bytes).is_prefix_of(hex_text(bytes.push(b))),
        oid::digit_value(hex_text(bytes.push(b)).last()) == b % 16,
        oid::digit_value(hex_text(bytes.push(b))[hex_text(bytes).len() as int]) == b / 16,
{
    assert(bytes.push(b).drop_last() =~= bytes);
    let d = oid::hex(b as nat, 2);
    oid::lemma_hex_len(b as nat, 2);
    oid::digits_are_written_in_small_letters(b as nat, 2);
    oid::lemma_hex_len(b as nat / 16, 1);
    oid::digits_are_written_in_small_letters(b as nat / 16, 1);
    assert(d[0] == d.drop_last()[0]);
    assert(oid::hex(b as nat / 16, 1).last() == oid::hex(b as nat / 16, 1)[0]);
    let whole = hex_text(bytes.push(b));
    assert(whole == hex_text(bytes) + d);
    assert(whole.last() == d.last());
    assert(hex_text(bytes) =~= whole.take(hex_text(bytes).len() as int));
}

/// The pane is drawn anew exactly where a whole picture came.
pub proof fn a_picture_that_came_is_drawn(results: Seq<DownloadResult>)
    ensures
        some_landed(results) <==> exists|i: int|
            0 <= i < results.len() && (#[trigger] results[i]).pixels is Some
                && results[i].pixels->0@.len() == 4 * AVATAR_PIXELS * AVATAR_PIXELS,
{
    if some_landed(results) {
        let i = choose|i: int|
            0 <= i < results.len() && state_after((#[trigger] results[i]).pixels) is Loaded;
        assert(results[i].pixels is Some);
    }
    if exists|i: int|
        0 <= i < results.len() && (#[trigger] results[i]).pixels is Some
            && results[i].pixels->0@.len() == 4 * AVATAR_PIXELS * AVATAR_PIXELS {
        let i = choose|i: int|
            0 <= i < results.len() && (#[trigger] results[i]).pixels is Some
                && results[i].pixels->0@.len() == 4 * AVATAR_PIXELS * AVATAR_PIXELS;
        assert(state_after(results[i].pixels) is Loaded);
    }
}

} // verus!
