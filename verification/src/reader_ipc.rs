//! Line-delimited messages from the byte reader, which sees raw file bytes,
//! to the inference process, which sees only this structured form. The JSON
//! codec of one message stands outside this crate; the framing, and where
//! the stream ends, are decided here.
use crate::text::{lines, split_lines, strings_view, trim_end, trim_end_string};
use vstd::prelude::*;

verus! {

#[verifier::external_type_specification]
#[verifier::external_body]
pub struct ExJsonError(serde_json::Error);

#[derive(Debug, Clone)]
pub enum Message {
    /// Sent once, first: the nonce and the two fixed prompts.
    Header { nonce_hex: String, system_prompt: String, task_prompt: String },
    /// One file: `content_base64` is the base64 of its bytes.
    File { relative_path: String, content_base64: String, byte_count: u64 },
    /// Sent last: no more files.
    EndFiles,
}

#[derive(Debug)]
pub enum IpcError {
    Io(std::io::Error),
    Parse(serde_json::Error),
    UnexpectedEof,
}

/// Decodes the message that one line of the stream carries.
pub trait MessageDecoder {
    fn decode(&self, line: &str) -> Result<Message, IpcError>;
}

/// The lines that carry messages: each line without trailing whitespace,
/// blank lines left out.
pub open spec fn framed(ls: Seq<Seq<char>>) -> Seq<Seq<char>>
    decreases ls.len(),
{
    if ls.len() == 0 {
        seq![]
    } else if trim_end(ls[0]).len() == 0 {
        framed(ls.drop_first())
    } else {
        seq![trim_end(ls[0])] + framed(ls.drop_first())
    }
}

/// The message-carrying lines of `input`, in order.
pub fn frame_lines(input: &str) -> (r: Vec<String>)
    ensures
        strings_view(r@) == framed(lines(input@)),
{
    let ls = split_lines(input);
    let ghost lv = strings_view(ls@);
    let mut out: Vec<String> = Vec::new();
    let mut i: usize = 0;
    assert(lv.skip(0) =~= lv);
    while i < ls.len()
        invariant
            i <= ls@.len(),
            lv == strings_view(ls@),
            lv == lines(input@),
            strings_view(out@) + framed(lv.skip(i as int)) == framed(lv),
        decreases ls@.len() - i,
    {
        assert(lv.skip(i as int)[0] == ls@[i as int]@);
        assert(lv.skip(i as int).drop_first() =~= lv.skip(i + 1));
        let t = trim_end_string(ls[i].as_str());
        if !t.as_str().is_empty() {
            proof {
                assert(t@.len() > 0);
            }
            let ghost before = strings_view(out@);
            out.push(t);
            assert(strings_view(out@) =~= before.push(trim_end(lv[i as int])));
            assert(before.push(trim_end(lv[i as int])) + framed(lv.skip(i + 1)) =~= before + (
            seq![trim_end(lv[i as int])] + framed(lv.skip(i + 1))));
        } else {
            proof {
                assert(t@.len() == 0);
            }
        }
        i = i + 1;
    }
    assert(lv.skip(i as int) =~= Seq::<Seq<char>>::empty());
    assert(strings_view(out@) + Seq::<Seq<char>>::empty() =~= strings_view(out@));
    out
}

/// `decoder` may answer `r` for a line whose text is `line`.
pub open spec fn decodes_to<D: MessageDecoder>(
    decoder: &D,
    line: Seq<char>,
    r: Result<Message, IpcError>,
) -> bool {
    exists|l: &str| l@ == line && call_ensures(D::decode, (decoder, l), r)
}

/// `decoder` may answer a message other than `EndFiles` for `line`.
pub open spec fn decodes_to_message<D: MessageDecoder>(decoder: &D, line: Seq<char>) -> bool {
    exists|m: Message| !(m is EndFiles) && #[trigger] decodes_to(decoder, line, Ok(m))
}

/// The messages of `input`, one per message-carrying line, each what the
/// decoder gives for that line, up to and including the first `EndFiles`;
/// whatever follows it is not read. The first error of the decoder is the
/// error; a stream without a message-carrying line reads as no messages.
pub fn read_messages<D: MessageDecoder>(input: &str, decoder: &D) -> (r: Result<Vec<Message>, IpcError>)
    ensures
        r matches Ok(v) ==> {
            &&& v@.len() <= framed(lines(input@)).len()
            &&& forall|i: int|
                0 <= i < v@.len() ==> decodes_to(
                    decoder,
                    framed(lines(input@))[i],
                    Ok(#[trigger] v@[i]),
                )
            &&& forall|i: int| 0 <= i < v@.len() - 1 ==> !(#[trigger] v@[i] is EndFiles)
            &&& v@.len() < framed(lines(input@)).len() ==> (v@.len() > 0 && (v@.last() is EndFiles))
        },
        r matches Err(e) ==> exists|k: int|
            0 <= k < framed(lines(input@)).len() && #[trigger] decodes_to(
                decoder,
                framed(lines(input@))[k],
                Err(e),
            ) && forall|j: int|
                0 <= j < k ==> #[trigger] decodes_to_message(decoder, framed(lines(input@))[j]),
        framed(lines(input@)).len() == 0 ==> (r matches Ok(v) && v@.len() == 0),
{
    let ls = frame_lines(input);
    let ghost fl = framed(lines(input@));
    let mut out: Vec<Message> = Vec::new();
    let mut i: usize = 0;
    while i < ls.len()
        invariant
            i <= ls@.len(),
            strings_view(ls@) == fl,
            fl == framed(lines(input@)),
            out@.len() == i,
            forall|k: int| 0 <= k < out@.len() ==> !(#[trigger] out@[k] is EndFiles),
            forall|k: int| 0 <= k < out@.len() ==> decodes_to(decoder, fl[k], Ok(#[trigger] out@[k])),
        decreases ls@.len() - i,
    {
        let line = ls[i].as_str();
        let res = decoder.decode(line);
        assert(line@ == fl[i as int]);
        assert(decodes_to(decoder, fl[i as int], res));
        match res {
            Ok(m) => {
                let end = matches!(m, Message::EndFiles);
                out.push(m);
                if end {
                    return Ok(out);
                }
            },
            Err(e) => {
                assert forall|j: int| 0 <= j < i implies #[trigger] decodes_to_message(
                    decoder,
                    fl[j],
                ) by {
                    assert(decodes_to(decoder, fl[j], Ok(out@[j])));
                }
                return Err(e);
            },
        }
        i = i + 1;
    }
    Ok(out)
}

} // verus!
