//! Contract transfer: binary file content travels over the text-only command
//! channel as base64 text, cut into bounded chunks, and is rebuilt inside the
//! container by appending the decoded chunks strictly in order.
use vstd::prelude::*;

use base64::Engine;

use crate::strutil::{concat_all, lemma_concat_push, views_of};

verus! {

/// The largest number of encoded characters sent in one shell command, chosen
/// so one command line stays well under shell command-length limits.
pub const CONTENT_MAX_CHARS: usize = 120000;

/// The base64 text that the `base64` engine produces for the given bytes; a
/// pure function of the bytes alone.
pub uninterp spec fn b64_of(bytes: Seq<u8>) -> Seq<char>;

/// Relies on base64's `Engine::encode` with the standard alphabet: the output
/// is a pure function of the input bytes, and an empty input encodes to an
/// empty string.
#[verifier::external_body]
pub fn base64_encode(bytes: &Vec<u8>) -> (r: String)
    ensures
        r@ == b64_of(bytes@),
        bytes@.len() == 0 ==> r@.len() == 0,
{
    base64::prelude::BASE64_STANDARD.encode(bytes)
}

/// The encoded payload cut into pieces of `max` characters, last piece
/// possibly shorter; empty payloads yield no pieces at all.
pub open spec fn chunks_spec(s: Seq<char>, max: nat) -> Seq<Seq<char>>
    decreases s.len(),
{
    if max == 0 || s.len() == 0 {
        Seq::<Seq<char>>::empty()
    } else if s.len() <= max {
        seq![s]
    } else {
        seq![s.take(max as int)] + chunks_spec(s.skip(max as int), max)
    }
}

/// Applying the chunks of a payload in list order, each appended after the
/// previous ones, rebuilds the payload exactly.
pub proof fn lemma_chunks_concat(s: Seq<char>, max: nat)
    requires
        max > 0,
    ensures
        concat_all(chunks_spec(s, max)) == s,
    decreases s.len(),
{
    if s.len() == 0 {
        assert(concat_all(chunks_spec(s, max)) =~= s);
    } else if s.len() <= max {
        assert(chunks_spec(s, max) =~= Seq::<Seq<char>>::empty().push(s));
        lemma_concat_push(Seq::<Seq<char>>::empty(), s);
        assert(concat_all(chunks_spec(s, max)) =~= s);
    } else {
        lemma_chunks_concat(s.skip(max as int), max);
        lemma_concat_prepend(s.take(max as int), chunks_spec(s.skip(max as int), max));
        assert(s.take(max as int) + s.skip(max as int) =~= s);
    }
}

proof fn lemma_concat_prepend(head: Seq<char>, parts: Seq<Seq<char>>)
    ensures
        concat_all(seq![head] + parts) == head + concat_all(parts),
    decreases parts.len(),
{
    if parts.len() == 0 {
        assert(seq![head] + parts =~= Seq::<Seq<char>>::empty().push(head));
        lemma_concat_push(Seq::<Seq<char>>::empty(), head);
        assert(concat_all(seq![head] + parts) =~= head + concat_all(parts));
    } else {
        let whole = seq![head] + parts;
        assert(whole.drop_last() =~= seq![head] + parts.drop_last());
        assert(whole.last() == parts.last());
        lemma_concat_prepend(head, parts.drop_last());
        assert(head + concat_all(parts.drop_last()) + parts.last() =~= head + concat_all(parts));
    }
}

/// Chunks applied out of order corrupt the rebuilt payload: swapping two
/// distinct pieces of equal size changes the concatenation.
pub proof fn lemma_reorder_corrupts(a: Seq<char>, b: Seq<char>)
    requires
        a.len() == b.len(),
        a != b,
    ensures
        a + b != b + a,
{
    if forall|i: int| 0 <= i < a.len() ==> a[i] == b[i] {
        assert(a =~= b);
    }
    let i = choose|i: int| 0 <= i < a.len() && a[i] != b[i];
    assert((a + b)[i] == a[i]);
    assert((b + a)[i] == b[i]);
}

/// Cuts the encoded payload into chunks of at most `max` characters.
pub fn split_chunks(s: &str, max: usize) -> (r: Vec<String>)
    requires
        max >= 1,
    ensures
        views_of(r@) == chunks_spec(s@, max as nat),
{
    let len: usize = s.unicode_len();
    let mut out: Vec<String> = Vec::new();
    let mut i: usize = 0;
    proof {
        assert(s@.skip(0) =~= s@);
        assert(views_of(out@) + chunks_spec(s@, max as nat) =~= chunks_spec(s@, max as nat));
    }
    while len - i >= max
        invariant
            max >= 1,
            len == s@.len(),
            i <= len,
            chunks_spec(s@, max as nat) =~= views_of(out@) + chunks_spec(
                s@.skip(i as int),
                max as nat,
            ),
        decreases len - i,
    {
        let ghost rem = s@.skip(i as int);
        let c = s.substring_char(i, i + max);
        let owned = c.to_owned();
        let ghost prev = out@;
        out.push(owned);
        proof {
            assert(views_of(out@) =~= views_of(prev).push(rem.take(max as int))) by {
                assert(c@ =~= rem.take(max as int));
            }
            let rest = s@.skip((i + max) as int);
            assert(rem.skip(max as int) =~= rest);
            if rem.len() > max {
                assert(chunks_spec(rem, max as nat) =~= seq![rem.take(max as int)] + chunks_spec(
                    rest,
                    max as nat,
                ));
            } else {
                assert(rem.len() == max);
                assert(rem.take(max as int) =~= rem);
                assert(chunks_spec(rem, max as nat) =~= seq![rem]);
                assert(rest.len() == 0);
            }
            assert(views_of(prev) + chunks_spec(rem, max as nat) =~= views_of(out@) + chunks_spec(
                rest,
                max as nat,
            ));
        }
        i = i + max;
    }
    if i < len {
        let c = s.substring_char(i, len);
        let owned = c.to_owned();
        let ghost prev = out@;
        out.push(owned);
        proof {
            let rem = s@.skip(i as int);
            assert(0 < rem.len() < max);
            assert(chunks_spec(rem, max as nat) =~= seq![rem]);
            assert(views_of(out@) =~= views_of(prev).push(rem));
            assert(views_of(out@) =~= views_of(prev) + chunks_spec(rem, max as nat));
        }
    } else {
        proof {
            assert(s@.skip(i as int).len() == 0);
            assert(views_of(out@) + chunks_spec(s@.skip(i as int), max as nat) =~= views_of(out@));
        }
    }
    out
}

/// One shell command that creates the destination's directory and appends one
/// decoded chunk to the destination file.
pub open spec fn chunk_append_spec(dest: Seq<char>, chunk: Seq<char>) -> Seq<char> {
    "mkdir -p \"$(dirname '"@ + dest + "')\" && (echo '"@ + chunk + "' | base64 --decode >> '"@
        + dest + "')"@
}

pub fn chunk_append_command(dest: &str, chunk: &str) -> (r: String)
    ensures
        r@ == chunk_append_spec(dest@, chunk@),
{
    let mut s = "mkdir -p \"$(dirname '".to_owned();
    s.append(dest);
    s.append("')\" && (echo '");
    s.append(chunk);
    s.append("' | base64 --decode >> '");
    s.append(dest);
    s.append("')");
    s
}

/// One shell command that creates the destination's directory and overwrites
/// the destination file with one decoded payload.
pub open spec fn overwrite_spec(dest: Seq<char>, payload: Seq<char>) -> Seq<char> {
    "mkdir -p \"$(dirname '"@ + dest + "')\" && (echo '"@ + payload + "' | base64 --decode > '"@
        + dest + "')"@
}

pub fn overwrite_command(dest: &str, payload: &str) -> (r: String)
    ensures
        r@ == overwrite_spec(dest@, payload@),
{
    let mut s = "mkdir -p \"$(dirname '".to_owned();
    s.append(dest);
    s.append("')\" && (echo '");
    s.append(payload);
    s.append("' | base64 --decode > '");
    s.append(dest);
    s.append("')");
    s
}

/// The command that writes the minimal placeholder package manifest — a
/// single zero byte — into the staging root, for source trees that ship none.
pub fn manifest_command(staging: &str) -> (r: String)
    ensures
        r@ == overwrite_spec(staging@ + seq!['/'] + "Move.toml"@, b64_of(seq![0u8])),
{
    let dest = crate::strutil::path_join(staging, "Move.toml");
    let mut payload: Vec<u8> = Vec::new();
    payload.push(0u8);
    proof {
        assert(payload@ =~= seq![0u8]);
    }
    let encoded = base64_encode(&payload);
    overwrite_command(dest.as_str(), encoded.as_str())
}

/// The command that clears a staging directory before a fresh transfer.
pub open spec fn remove_dir_spec(path: Seq<char>) -> Seq<char> {
    "rm -rf "@ + path
}

pub fn remove_dir_command(path: &str) -> (r: String)
    ensures
        r@ == remove_dir_spec(path@),
{
    let mut s = "rm -rf ".to_owned();
    s.append(path);
    s
}

/// The ordered command list that transfers one file: one append command per
/// chunk of the base64 encoding of the file's bytes.
pub open spec fn file_commands_spec(dest: Seq<char>, content: Seq<u8>, max: nat) -> Seq<Seq<char>> {
    chunks_spec(b64_of(content), max).map_values(|c: Seq<char>| chunk_append_spec(dest, c))
}

/// The ordered command list that transfers a whole source tree into the
/// staging directory: for each (relative path, content) pair in order, the
/// chunk commands of that file.
pub open spec fn stage_files_spec(
    staging: Seq<char>,
    files: Seq<(String, Vec<u8>)>,
    max: nat,
) -> Seq<Seq<char>>
    decreases files.len(),
{
    if files.len() == 0 {
        Seq::<Seq<char>>::empty()
    } else {
        stage_files_spec(staging, files.drop_last(), max) + file_commands_spec(
            staging + seq!['/'] + files.last().0@,
            files.last().1@,
            max,
        )
    }
}

pub fn file_chunk_commands(dest: &str, content: &Vec<u8>, max: usize) -> (r: Vec<String>)
    requires
        max >= 1,
    ensures
        views_of(r@) == file_commands_spec(dest@, content@, max as nat),
{
    let encoded = base64_encode(content);
    let chunks = split_chunks(encoded.as_str(), max);
    let mut out: Vec<String> = Vec::new();
    let mut k: usize = 0;
    while k < chunks.len()
        invariant
            k <= chunks@.len(),
            views_of(chunks@) == chunks_spec(b64_of(content@), max as nat),
            out@.len() == k,
            forall|j: int|
                0 <= j < k ==> views_of(out@)[j] == chunk_append_spec(dest@, chunks@[j]@),
        decreases chunks@.len() - k,
    {
        let cmd = chunk_append_command(dest, chunks[k].as_str());
        let ghost prev = out@;
        let ghost cmd_view = cmd@;
        out.push(cmd);
        proof {
            assert(views_of(out@) =~= views_of(prev).push(cmd_view));
        }
        k = k + 1;
    }
    proof {
        assert(views_of(out@) =~= file_commands_spec(dest@, content@, max as nat));
    }
    out
}

} // verus!
