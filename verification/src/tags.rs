//! Walking the tags of a SWF stream.
//!
//! A tag is a little-endian `u16` header holding `code << 6 | length`, where a length of `0x3F`
//! means a `u32` length follows, and then `length` bytes of body. The walk hands each tag with a
//! known code to a callback positioned on its body, and afterwards always resumes at the end of the
//! tag itself, so a callback that reads none of the body still lands on the next tag.
use swf::read::Reader;
use swf::TagCode;
use vstd::prelude::*;

verus! {

#[verifier::external_type_specification]
#[verifier::external_body]
pub struct ExTagCode(TagCode);

#[verifier::external_type_specification]
#[verifier::external_body]
pub struct ExSwfError(swf::error::Error);

#[verifier::external_type_specification]
#[verifier::external_body]
pub struct ExReader<'a>(Reader<'a>);

/// Whether or not to end tag decoding.
#[derive(Clone, Copy, Debug, PartialEq, Eq, Structural)]
pub enum ControlFlow {
    /// Stop decoding after this tag.
    Exit,
    /// Continue decoding the next tag.
    Continue,
}

/// Why a tag walk failed.
#[derive(Debug)]
pub enum TagError {
    /// The stream could not be read as SWF.
    InvalidSwf(swf::error::Error),
}

/// The little-endian integer held by `bytes`.
pub open spec fn le_value(bytes: Seq<u8>) -> int
    decreases bytes.len(),
{
    if bytes.len() == 0 {
        0
    } else {
        bytes[0] + 256 * le_value(bytes.drop_first())
    }
}

/// A tag header read from the front of `data`: the code, the body length and what follows the
/// header; `None` when the header runs past the end.
pub open spec fn tag_header(data: Seq<u8>) -> Option<(u16, usize, Seq<u8>)> {
    if data.len() < 2 {
        None
    } else {
        let word = le_value(data.subrange(0, 2));
        let code = (word / 64) as u16;
        let short = word % 64;
        if short == 63 {
            if data.len() < 6 {
                None
            } else {
                Some((code, le_value(data.subrange(2, 6)) as usize, data.subrange(6, data.len() as int)))
            }
        } else {
            Some((code, short as usize, data.subrange(2, data.len() as int)))
        }
    }
}

/// Where the stream stands after a header that could not be read: past the first word when that
/// much was read, where it was otherwise.
pub open spec fn after_failed_header(data: Seq<u8>) -> Seq<u8> {
    if data.len() >= 2 && le_value(data.subrange(0, 2)) % 64 == 63 {
        data.subrange(2, data.len() as int)
    } else {
        data
    }
}

/// The known tag a code names, as swf's `TagCode::from_u16` reads it.
pub uninterp spec fn swf_tag_code(code: u16) -> Option<TagCode>;

/// The codes swf's `TagCode` has a variant for.
pub open spec fn known_tag_code(code: u16) -> bool {
    ||| code <= 2
    ||| 4 <= code <= 15
    ||| 17 <= code <= 24
    ||| code == 26
    ||| code == 28
    ||| 32 <= code <= 37
    ||| 39 <= code <= 41
    ||| code == 43
    ||| 45 <= code <= 46
    ||| code == 48
    ||| 56 <= code <= 66
    ||| 69 <= code <= 78
    ||| 82 <= code <= 84
    ||| 86 <= code <= 91
    ||| 93 <= code <= 94
}

/// swf's `TagCode::from_u16`: the tag a code names, if it names one. Its source derives the
/// conversion from the enum's discriminants, so exactly the codes with a variant give a tag.
#[verifier::external_body]
fn tag_code_from_u16(code: u16) -> (r: Option<TagCode>)
    ensures
        r == swf_tag_code(code),
        r is Some <==> known_tag_code(code),
{
    TagCode::from_u16(code)
}

/// The reader swf's `Reader::new` makes over `input` for a SWF version.
pub uninterp spec fn swf_reader(input: Seq<u8>, version: u8) -> Reader<'static>;

/// swf's `Reader::new`: a reader over `input` for the given SWF version. Its source only stores
/// the slice and the version, so the reader is a function of those two.
#[verifier::external_body]
fn new_reader<'a>(input: &'a [u8], version: u8) -> (r: Reader<'a>)
    ensures
        r == swf_reader(input@, version),
{
    Reader::new(input, version)
}

/// swf's `Reader::read_tag_code_and_length`, on a reader over `input`, which is left where the
/// reader stopped. Its source reads a little-endian `u16` and, when its low six bits are all set,
/// a little-endian `u32` length; either read fails without consuming when too few bytes remain.
#[verifier::external_body]
fn read_tag_code_and_length<'a>(input: &mut &'a [u8], version: u8) -> (r: Result<
    (u16, usize),
    swf::error::Error,
>)
    ensures
        match r {
            Ok((code, length)) => tag_header(old(input)@) == Some((code, length, final(input)@)),
            Err(_) => tag_header(old(input)@) is None && final(input)@ == after_failed_header(
                old(input)@,
            ),
        },
{
    let mut reader = Reader::new(*input, version);
    let header = reader.read_tag_code_and_length();
    *input = reader.get_ref();
    header
}

/// The stream after one whole tag, when its header reads and its body fits.
pub open spec fn after_tag(data: Seq<u8>) -> Option<Seq<u8>> {
    match tag_header(data) {
        Some((code, length, rest)) => if length <= rest.len() {
            Some(rest.subrange(length as int, rest.len() as int))
        } else {
            None
        },
        None => None,
    }
}

/// Where the stream stands after the first `k` whole tags, if they are all whole.
pub open spec fn tags_walked(from: Seq<u8>, k: nat) -> Option<Seq<u8>>
    decreases k,
{
    if k == 0 {
        Some(from)
    } else {
        match tags_walked(from, (k - 1) as nat) {
            Some(at) => after_tag(at),
            None => None,
        }
    }
}

/// The body of the tag whose header starts `at`: the `length` bytes after its header.
pub open spec fn tag_body(at: Seq<u8>) -> Seq<u8> {
    match tag_header(at) {
        Some((_, length, rest)) => rest.subrange(0, length as int),
        None => Seq::empty(),
    }
}

/// The code of the tag whose header starts `at`.
pub open spec fn header_code(at: Seq<u8>) -> u16 {
    match tag_header(at) {
        Some((code, _, _)) => code,
        None => 0,
    }
}

/// Whether the tag that starts at `at` was passed: a code swf does not know is stepped over,
/// and a known one is handed to `callback` with its tag and a reader over exactly its body, the
/// callback answering `Exit` exactly when `exits`.
pub open spec fn tag_handled<'a, F, E>(callback: F, version: u8, at: Seq<u8>, exits: bool) -> bool where
    F: FnMut(&mut Reader<'a>, TagCode) -> Result<ControlFlow, E>,
 {
    match swf_tag_code(header_code(at)) {
        Some(tag) => known_tag_code(header_code(at)) && exists|
            args: (&mut Reader<'a>, TagCode),
            answer: Result<ControlFlow, E>,
        |
            args.1 == tag && *args.0 == swf_reader(tag_body(at), version) && call_ensures(
                callback,
                args,
                answer,
            ) && (answer matches Ok(ControlFlow::Exit)) == exits,
        None => !known_tag_code(header_code(at)) && !exits,
    }
}

/// Whether the `k`-th tag from `from` is whole and was handled without ending the walk.
pub open spec fn tag_passed_at<'a, F, E>(callback: F, version: u8, from: Seq<u8>, k: nat) -> bool where
    F: FnMut(&mut Reader<'a>, TagCode) -> Result<ControlFlow, E>,
 {
    &&& tags_walked(from, k) is Some
    &&& tag_handled(callback, version, tags_walked(from, k)->0, false)
}

/// Whether each of the first `n` whole tags was handled and none ended the walk.
pub open spec fn tags_passed<'a, F, E>(callback: F, version: u8, from: Seq<u8>, n: nat) -> bool where
    F: FnMut(&mut Reader<'a>, TagCode) -> Result<ControlFlow, E>,
 {
    forall|k: nat| k < n ==> #[trigger] tag_passed_at(callback, version, from, k)
}

/// The walk from `from` passed whole tags and ended just past a known tag whose callback
/// answered `Exit`, leaving the stream at `to`.
pub open spec fn walk_exited<'a, F, E>(callback: F, version: u8, from: Seq<u8>, to: Seq<u8>) -> bool where
    F: FnMut(&mut Reader<'a>, TagCode) -> Result<ControlFlow, E>,
 {
    exists|n: nat|
        #![trigger tags_walked(from, n)]
        {
            &&& tags_passed(callback, version, from, n)
            &&& tags_walked(from, n) is Some
            &&& tag_handled(callback, version, tags_walked(from, n)->0, true)
            &&& after_tag(tags_walked(from, n)->0) == Some(to)
        }
}

/// The walk from `from` passed whole tags and came to one that claims more bytes than remain.
pub open spec fn walk_ran_out<'a, F, E>(callback: F, version: u8, from: Seq<u8>) -> bool where
    F: FnMut(&mut Reader<'a>, TagCode) -> Result<ControlFlow, E>,
 {
    exists|n: nat|
        #![trigger tags_walked(from, n)]
        {
            &&& tags_passed(callback, version, from, n)
            &&& tags_walked(from, n) is Some
            &&& tag_header(tags_walked(from, n)->0) is Some
            &&& after_tag(tags_walked(from, n)->0) is None
        }
}

/// The walk from `from` passed whole tags and came to a header it could not read, leaving the
/// stream at `to`.
pub open spec fn walk_failed<'a, F, E>(callback: F, version: u8, from: Seq<u8>, to: Seq<u8>) -> bool where
    F: FnMut(&mut Reader<'a>, TagCode) -> Result<ControlFlow, E>,
 {
    exists|n: nat|
        #![trigger tags_walked(from, n)]
        {
            &&& tags_passed(callback, version, from, n)
            &&& tags_walked(from, n) is Some
            &&& tag_header(tags_walked(from, n)->0) is None
            &&& to == after_failed_header(tags_walked(from, n)->0)
        }
}

/// Decode tags from a SWF stream, `input` standing at a tag boundary.
///
/// Each tag whose code is known is handed to `tag_callback` with a reader over exactly its body;
/// whatever the callback reads, the walk resumes at the end of that tag. A callback error is
/// passed over and the walk goes on. The walk ends when:
///
///  * the callback answers `Exit`: `Ok(true)`, with `input` just past that tag;
///  * a tag claims more bytes than remain: `Ok(false)`, with `input` emptied;
///  * a header cannot be read: the error, with `input` where the failed read left it.
#[verifier::rlimit(60)]
pub fn decode_tags<'a, F, E>(input: &mut &'a [u8], version: u8, tag_callback: F) -> (r: Result<
    bool,
    TagError,
>) where F: FnMut(&mut Reader<'a>, TagCode) -> Result<ControlFlow, E>
    requires
        forall|args: (&mut Reader<'a>, TagCode)| call_requires(tag_callback, args),
    ensures
        r matches Ok(true) ==> walk_exited(tag_callback, version, old(input)@, final(input)@),
        r matches Ok(false) ==> final(input)@.len() == 0 && walk_ran_out(
            tag_callback,
            version,
            old(input)@,
        ),
        r is Err ==> walk_failed(tag_callback, version, old(input)@, final(input)@),
{
    let ghost start = input@;
    let ghost callback = tag_callback;
    let mut callback_fn = tag_callback;
    let ghost mut steps: nat = 0;
    loop
        invariant
            callback_fn == callback,
            callback == tag_callback,
            forall|args: (&mut Reader<'a>, TagCode)| call_requires(callback_fn, args),
            start == old(input)@,
            tags_walked(start, steps) == Some(input@),
            tags_passed(callback, version, start, steps),
        decreases input@.len(),
    {
        let ghost at = input@;
        let (tag_code, tag_len) = match read_tag_code_and_length(input, version) {
            Ok(header) => header,
            Err(e) => {
                assert(tags_walked(start, steps) == Some(at));
                assert(walk_failed(callback, version, start, input@));
                return Err(TagError::InvalidSwf(e));
            },
        };
        if tag_len > input.len() {
            let (_, empty) = input.split_at(input.len());
            *input = empty;
            assert(tags_walked(start, steps) == Some(at));
            assert(walk_ran_out(callback, version, start));
            return Ok(false);
        }
        let (tag_slice, end_slice) = input.split_at(tag_len);
        proof {
            assert(after_tag(at) == Some(end_slice@));
            assert(tags_walked(start, steps + 1) == Some(end_slice@));
        }
        let mut exited = false;
        if let Some(tag) = tag_code_from_u16(tag_code) {
            let mut reader = new_reader(tag_slice, version);
            let result = callback_fn(&mut reader, tag);
            if let Ok(ControlFlow::Exit) = result {
                exited = true;
            }
            proof {
                assert(header_code(at) == tag_code);
                assert(tag_handled(callback, version, at, exited));
            }
        } else {
            assert(tag_handled(callback, version, at, false));
        }
        if exited {
            *input = end_slice;
            assert(tags_walked(start, steps) == Some(at));
            assert(walk_exited(callback, version, start, input@));
            return Ok(true);
        }
        *input = end_slice;
        proof {
            assert forall|k: nat| k < steps + 1 implies #[trigger] tag_passed_at(
                callback,
                version,
                start,
                k,
            ) by {
                if k == steps {
                    assert(tags_walked(start, k) == Some(at));
                }
            }
            steps = steps + 1;
        }
    }
}

} // verus!
