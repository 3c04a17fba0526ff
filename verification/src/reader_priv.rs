//! The inference side of the split reader: the prompt, the list of inputs
//! and the nonce, built from the structured messages alone. It never sees
//! raw file bytes, only their base64 text.
use crate::codec::{hex_encode, hex_lower, sha3_256, sha3_256_of};
use crate::reader_ipc::Message;
use crate::text::push_str;
use vstd::prelude::*;
use vstd::utf8::encode_utf8;

verus! {

/// One input as the inference side knows it: the digest is over the base64
/// text, which identifies the content as well as the bytes would.
pub struct IpcInput {
    pub path: String,
    pub sha3_256_of_base64: String,
    pub size: u64,
}

/// What the inference side gathers from the messages.
pub struct PrivPrompt {
    pub prompt: String,
    pub inputs: Vec<IpcInput>,
    pub nonce_hex: String,
}

pub open spec fn input_view(i: IpcInput) -> (Seq<char>, Seq<char>, u64) {
    (i.path@, i.sha3_256_of_base64@, i.size)
}

/// The prompt block for one file.
pub open spec fn file_block(path: Seq<char>, nonce: Seq<char>, content_base64: Seq<char>) -> Seq<
    char,
> {
    "<file path=\""@ + path + "\">\n"@ + "<bytes-begin-"@ + nonce + ">\n"@ + content_base64
        + "\n<bytes-end-"@ + nonce + ">\n</file>\n"@
}

/// The state after some messages: the prompt so far, the inputs, the
/// nonce of the last header, and whether a file list is open.
pub open spec fn step(
    st: (Seq<char>, Seq<(Seq<char>, Seq<char>, u64)>, Seq<char>, bool),
    m: Message,
) -> (Seq<char>, Seq<(Seq<char>, Seq<char>, u64)>, Seq<char>, bool) {
    match m {
        Message::Header { nonce_hex, system_prompt, .. } => (
            st.0 + "<system>\n"@ + system_prompt@ + "\n</system>\n\n"@ + "<files-begin-"@
                + nonce_hex@ + ">\n"@,
            st.1,
            nonce_hex@,
            true,
        ),
        Message::File { relative_path, content_base64, byte_count } => (
            st.0 + file_block(relative_path@, st.2, content_base64@),
            st.1.push(
                (relative_path@, hex_lower(sha3_256(encode_utf8(content_base64@))), byte_count),
            ),
            st.2,
            st.3,
        ),
        Message::EndFiles => (
            if st.3 {
                st.0 + "<files-end-"@ + st.2 + ">\n\n"@
            } else {
                st.0
            },
            st.1,
            st.2,
            false,
        ),
    }
}

/// The state after all of `ms`, in order.
pub open spec fn gather(ms: Seq<Message>) -> (
    Seq<char>,
    Seq<(Seq<char>, Seq<char>, u64)>,
    Seq<char>,
    bool,
)
    decreases ms.len(),
{
    if ms.len() == 0 {
        (seq![], seq![], seq![], false)
    } else {
        step(gather(ms.drop_last()), ms.last())
    }
}

/// The closing task block, which names the nonce.
pub open spec fn task_block(nonce: Seq<char>) -> Seq<char> {
    "<task>\nProduce a JSON object matching the report schema. The marker nonce is "@ + nonce
        + ".\n</task>\n"@
}

/// The prompt, inputs and nonce that the messages `ms` yield.
pub fn priv_prompt(ms: &Vec<Message>) -> (p: PrivPrompt)
    ensures
        p.prompt@ == gather(ms@).0 + task_block(gather(ms@).2),
        p.inputs@.map_values(|i: IpcInput| input_view(i)) == gather(ms@).1,
        p.nonce_hex@ == gather(ms@).2,
{
    let mut prompt = String::new();
    let mut inputs: Vec<IpcInput> = Vec::new();
    let mut nonce_hex = String::new();
    let mut in_files = false;
    let mut i: usize = 0;
    while i < ms.len()
        invariant
            i <= ms@.len(),
            (prompt@, inputs@.map_values(|x: IpcInput| input_view(x)), nonce_hex@, in_files)
                == gather(ms@.take(i as int)),
        decreases ms@.len() - i,
    {
        assert(ms@.take(i + 1).drop_last() =~= ms@.take(i as int));
        let ghost before = inputs@.map_values(|x: IpcInput| input_view(x));
        match &ms[i] {
            Message::Header { nonce_hex: n, system_prompt, .. } => {
                nonce_hex = n.clone();
                push_str(&mut prompt, "<system>\n");
                push_str(&mut prompt, system_prompt.as_str());
                push_str(&mut prompt, "\n</system>\n\n");
                push_str(&mut prompt, "<files-begin-");
                push_str(&mut prompt, n.as_str());
                push_str(&mut prompt, ">\n");
                in_files = true;
            },
            Message::File { relative_path, content_base64, byte_count } => {
                push_str(&mut prompt, "<file path=\"");
                push_str(&mut prompt, relative_path.as_str());
                push_str(&mut prompt, "\">\n");
                push_str(&mut prompt, "<bytes-begin-");
                push_str(&mut prompt, nonce_hex.as_str());
                push_str(&mut prompt, ">\n");
                push_str(&mut prompt, content_base64.as_str());
                push_str(&mut prompt, "\n<bytes-end-");
                push_str(&mut prompt, nonce_hex.as_str());
                push_str(&mut prompt, ">\n</file>\n");
                let digest = sha3_256_of(content_base64.as_str().as_bytes());
                inputs.push(
                    IpcInput {
                        path: relative_path.clone(),
                        sha3_256_of_base64: hex_encode(&digest),
                        size: *byte_count,
                    },
                );
                assert(inputs@.map_values(|x: IpcInput| input_view(x)) =~= before.push(
                    input_view(inputs@.last()),
                ));
            },
            Message::EndFiles => {
                if in_files {
                    push_str(&mut prompt, "<files-end-");
                    push_str(&mut prompt, nonce_hex.as_str());
                    push_str(&mut prompt, ">\n\n");
                }
                in_files = false;
            },
        }
        i = i + 1;
    }
    assert(ms@.take(i as int) =~= ms@);
    push_str(
        &mut prompt,
        "<task>\nProduce a JSON object matching the report schema. The marker nonce is ",
    );
    push_str(&mut prompt, nonce_hex.as_str());
    push_str(&mut prompt, ".\n</task>\n");
    PrivPrompt { prompt, inputs, nonce_hex }
}

} // verus!
