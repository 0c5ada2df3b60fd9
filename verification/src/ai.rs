//! The delegated report synthesizer: builds the commit dossier, the
//! instructional prompt and the JSON request body, and interprets the
//! generation endpoint's answer. The single network call itself is the
//! caller's to make; everything around it is verified here.

use vstd::prelude::*;
use vstd::string::*;
use crate::bytes::{dec_spec, push_bytes, push_dec_u64, push_str, is_blank, trim_spec, trim_bytes, views};
use crate::history::Commit;
use crate::time::{UtcTime, ymd_hms_spec, push_ymd_hms};
use crate::errors::ReportError;

verus! {

/// Dossier file bullets, one per changed path.
pub open spec fn ai_files_spec(fs: Seq<Seq<u8>>) -> Seq<u8>
    decreases fs.len(),
{
    if fs.len() == 0 {
        Seq::<u8>::empty()
    } else {
        "    - ".spec_bytes() + fs[0] + seq![10u8] + ai_files_spec(fs.drop_first())
    }
}

proof fn lemma_ai_files_push(fs: Seq<Seq<u8>>, f: Seq<u8>)
    ensures
        ai_files_spec(fs.push(f)) =~= ai_files_spec(fs) + "    - ".spec_bytes() + f + seq![10u8],
    decreases fs.len(),
{
    if fs.len() == 0 {
        assert(fs.push(f)[0] == f);
        assert(fs.push(f).drop_first() =~= Seq::<Seq<u8>>::empty());
        assert(ai_files_spec(fs.push(f).drop_first()) =~= Seq::<u8>::empty());
    } else {
        assert(fs.push(f)[0] == fs[0]);
        assert(fs.push(f).drop_first() =~= fs.drop_first().push(f));
        assert(ai_files_spec(fs.push(f).drop_first()) == ai_files_spec(fs.drop_first().push(f)));
        lemma_ai_files_push(fs.drop_first(), f);
    }
}

/// One numbered dossier entry: the fields the prompt carries per commit,
/// with the trimmed description inline when it is non-blank.
pub open spec fn ai_entry_spec(c: Commit, num: nat) -> Seq<u8> {
    "Commit ".spec_bytes() + dec_spec(num) + ":\n  Hash: ".spec_bytes() + c.hash@
        + "\n  Author: ".spec_bytes() + c.author@ + "\n  Date: ".spec_bytes() + ymd_hms_spec(
        c.date,
    ) + "\n  Subject: ".spec_bytes() + c.subject@ + seq![10u8] + (if trim_spec(c.body@).len()
        == 0 {
        Seq::<u8>::empty()
    } else {
        "  Description: ".spec_bytes() + trim_spec(c.body@) + seq![10u8]
    }) + (if c.files_changed@.len() == 0 {
        Seq::<u8>::empty()
    } else {
        "  Files Changed:\n".spec_bytes() + ai_files_spec(views(c.files_changed@))
    }) + seq![10u8]
}

/// The numbered dossier entries for `cs`, numbering starting at `num`.
pub open spec fn dossier_spec(cs: Seq<Commit>, num: nat) -> Seq<u8>
    decreases cs.len(),
{
    if cs.len() == 0 {
        Seq::<u8>::empty()
    } else {
        ai_entry_spec(cs[0], num) + dossier_spec(cs.drop_first(), num + 1)
    }
}

proof fn lemma_dossier_push(cs: Seq<Commit>, c: Commit, num: nat)
    ensures
        dossier_spec(cs.push(c), num) =~= dossier_spec(cs, num) + ai_entry_spec(
            c,
            num + cs.len(),
        ),
    decreases cs.len(),
{
    if cs.len() == 0 {
        assert(cs.push(c)[0] == c);
        assert(cs.push(c).drop_first() =~= Seq::<Commit>::empty());
        assert(dossier_spec(cs.push(c).drop_first(), num + 1) =~= Seq::<u8>::empty());
    } else {
        assert(cs.push(c)[0] == cs[0]);
        assert(cs.push(c).drop_first() =~= cs.drop_first().push(c));
        assert(dossier_spec(cs.push(c).drop_first(), num + 1) == dossier_spec(
            cs.drop_first().push(c),
            num + 1,
        ));
        lemma_dossier_push(cs.drop_first(), c, num + 1);
    }
}

/// Appends one dossier entry.
#[verifier::rlimit(60)]
pub fn push_ai_entry(out: &mut Vec<u8>, c: &Commit, num: u64)
    requires
        c.wf(),
    ensures
        final(out)@ == old(out)@ + ai_entry_spec(*c, num as nat),
{
    push_str(out, "Commit ");
    push_dec_u64(out, num);
    push_str(out, ":\n  Hash: ");
    push_bytes(out, c.hash.as_slice());
    push_str(out, "\n  Author: ");
    push_bytes(out, c.author.as_slice());
    push_str(out, "\n  Date: ");
    push_ymd_hms(out, &c.date);
    push_str(out, "\n  Subject: ");
    push_bytes(out, c.subject.as_slice());
    out.push(10);
    let ghost head_done = out@;
    proof {
        assert(head_done =~= old(out)@ + ("Commit ".spec_bytes() + dec_spec(num as nat)
            + ":\n  Hash: ".spec_bytes() + c.hash@ + "\n  Author: ".spec_bytes() + c.author@
            + "\n  Date: ".spec_bytes() + ymd_hms_spec(c.date) + "\n  Subject: ".spec_bytes()
            + c.subject@ + seq![10u8]));
    }
    if !is_blank(c.body.as_slice()) {
        push_str(out, "  Description: ");
        let trimmed = trim_bytes(c.body.as_slice());
        push_bytes(out, trimmed.as_slice());
        out.push(10);
        proof {
            assert(out@ =~= head_done + ("  Description: ".spec_bytes() + trim_spec(c.body@)
                + seq![10u8]));
        }
    }
    let ghost desc_done = out@;
    if c.files_changed.len() > 0 {
        push_str(out, "  Files Changed:\n");
        let ghost fv = views(c.files_changed@);
        let ghost files_base = out@;
        let mut i: usize = 0;
        while i < c.files_changed.len()
            invariant
                0 <= i <= c.files_changed@.len(),
                fv == views(c.files_changed@),
                out@ =~= files_base + ai_files_spec(fv.take(i as int)),
            decreases c.files_changed@.len() - i,
        {
            proof {
                assert(fv.take(i + 1 as int) =~= fv.take(i as int).push(fv[i as int]));
                lemma_ai_files_push(fv.take(i as int), fv[i as int]);
                assert(views(c.files_changed@)[i as int] == c.files_changed@[i as int]@);
            }
            push_str(out, "    - ");
            push_bytes(out, c.files_changed[i].as_slice());
            out.push(10);
            i = i + 1;
        }
        proof {
            assert(fv.take(fv.len() as int) =~= fv);
            assert(out@ =~= desc_done + ("  Files Changed:\n".spec_bytes() + ai_files_spec(
                views(c.files_changed@),
            )));
        }
    }
    out.push(10);
    proof {
        assert(out@ =~= old(out)@ + ai_entry_spec(*c, num as nat));
    }
}

/// The fixed instructional preamble of the prompt.
pub open spec fn prompt_preamble_spec() -> Seq<u8> {
    "Generate a complete, professional Git commit report based on the following commit data. Create a well-structured report with these sections:\n1. Title and Repository Information\n2. Executive Summary\n3. Detailed Commit Analysis\n4. Technical Impact Assessment\n5. Conclusion\n\nGuidelines:\n- Use clear, professional language\n- Avoid repetition and unnecessary sections\n- Focus on what was actually accomplished\n- Explain technical changes in business terms when possible\n- Keep the report concise but comprehensive\n- Use proper markdown formatting\n\nRepository: ".spec_bytes()
}

/// The whole prompt: preamble, range facts, generation moment, dossier.
pub open spec fn prompt_spec(
    repo: Seq<u8>,
    now: UtcTime,
    from: Commit,
    to: Commit,
    cs: Seq<Commit>,
) -> Seq<u8> {
    prompt_preamble_spec() + repo + "\nCommit Range: ".spec_bytes() + from.hash@
        + " -> ".spec_bytes() + to.hash@ + "\nTotal Commits: ".spec_bytes() + dec_spec(cs.len())
        + "\nGenerated: ".spec_bytes() + ymd_hms_spec(now)
        + " UTC\n\nCommit Data:\n".spec_bytes() + dossier_spec(cs, 1)
}

/// Builds the prompt for the generation endpoint.
pub fn build_prompt(
    repo: &Vec<u8>,
    now: &UtcTime,
    from: &Commit,
    to: &Commit,
    commits: &Vec<Commit>,
) -> (r: Vec<u8>)
    requires
        now.wf(),
        from.wf(),
        to.wf(),
        forall|i: int| 0 <= i < commits@.len() ==> (#[trigger] commits@[i]).wf(),
    ensures
        r@ == prompt_spec(repo@, *now, *from, *to, commits@),
{
    let mut out: Vec<u8> = Vec::new();
    push_str(
        &mut out,
        "Generate a complete, professional Git commit report based on the following commit data. Create a well-structured report with these sections:\n1. Title and Repository Information\n2. Executive Summary\n3. Detailed Commit Analysis\n4. Technical Impact Assessment\n5. Conclusion\n\nGuidelines:\n- Use clear, professional language\n- Avoid repetition and unnecessary sections\n- Focus on what was actually accomplished\n- Explain technical changes in business terms when possible\n- Keep the report concise but comprehensive\n- Use proper markdown formatting\n\nRepository: ",
    );
    push_bytes(&mut out, repo.as_slice());
    push_str(&mut out, "\nCommit Range: ");
    push_bytes(&mut out, from.hash.as_slice());
    push_str(&mut out, " -> ");
    push_bytes(&mut out, to.hash.as_slice());
    push_str(&mut out, "\nTotal Commits: ");
    push_dec_u64(&mut out, commits.len() as u64);
    push_str(&mut out, "\nGenerated: ");
    push_ymd_hms(&mut out, now);
    push_str(&mut out, " UTC\n\nCommit Data:\n");
    let ghost header = out@;
    let mut i: usize = 0;
    while i < commits.len()
        invariant
            0 <= i <= commits@.len(),
            forall|i0: int| 0 <= i0 < commits@.len() ==> (#[trigger] commits@[i0]).wf(),
            out@ =~= header + dossier_spec(commits@.take(i as int), 1),
        decreases commits@.len() - i,
    {
        proof {
            assert(commits@.take(i + 1 as int) =~= commits@.take(i as int).push(
                commits@[i as int],
            ));
            lemma_dossier_push(commits@.take(i as int), commits@[i as int], 1);
        }
        push_ai_entry(&mut out, &commits[i], (i as u64) + 1);
        i = i + 1;
    }
    proof {
        assert(commits@.take(commits@.len() as int) =~= commits@);
        assert(out@ =~= prompt_spec(repo@, *now, *from, *to, commits@));
    }
    out
}

/// The lowercase hexadecimal digit for `n`.
pub open spec fn hex_digit(n: nat) -> u8 {
    if n < 10 {
        (48 + n) as u8
    } else {
        (87 + n) as u8
    }
}

/// The JSON string escape of one byte: quote, backslash and control bytes
/// are escaped, everything else passes through.
pub open spec fn esc_byte(b: u8) -> Seq<u8> {
    if b == 34 {
        seq![92u8, 34u8]
    } else if b == 92 {
        seq![92u8, 92u8]
    } else if b == 8 {
        seq![92u8, 98u8]
    } else if b == 12 {
        seq![92u8, 102u8]
    } else if b == 10 {
        seq![92u8, 110u8]
    } else if b == 13 {
        seq![92u8, 114u8]
    } else if b == 9 {
        seq![92u8, 116u8]
    } else if b < 32 {
        seq![92u8, 117u8, 48u8, 48u8, hex_digit((b / 16) as nat), hex_digit((b % 16) as nat)]
    } else {
        seq![b]
    }
}

/// The JSON string escape of `s`, byte by byte.
pub open spec fn json_escape_spec(s: Seq<u8>) -> Seq<u8>
    decreases s.len(),
{
    if s.len() == 0 {
        Seq::<u8>::empty()
    } else {
        esc_byte(s[0]) + json_escape_spec(s.drop_first())
    }
}

proof fn lemma_escape_push(s: Seq<u8>, b: u8)
    ensures
        json_escape_spec(s.push(b)) =~= json_escape_spec(s) + esc_byte(b),
    decreases s.len(),
{
    if s.len() == 0 {
        assert(s.push(b)[0] == b);
        assert(s.push(b).drop_first() =~= Seq::<u8>::empty());
        assert(json_escape_spec(s.push(b).drop_first()) =~= Seq::<u8>::empty());
    } else {
        assert(s.push(b)[0] == s[0]);
        assert(s.push(b).drop_first() =~= s.drop_first().push(b));
        assert(json_escape_spec(s.push(b).drop_first()) == json_escape_spec(
            s.drop_first().push(b),
        ));
        lemma_escape_push(s.drop_first(), b);
    }
}

/// Appends the JSON string escape of `s`.
pub fn push_json_escaped(out: &mut Vec<u8>, s: &[u8])
    ensures
        final(out)@ == old(out)@ + json_escape_spec(s@),
{
    let mut i: usize = 0;
    proof {
        assert(s@.take(0) =~= Seq::<u8>::empty());
        assert(out@ + json_escape_spec(s@.take(0)) =~= out@);
    }
    while i < s.len()
        invariant
            0 <= i <= s@.len(),
            out@ =~= old(out)@ + json_escape_spec(s@.take(i as int)),
        decreases s@.len() - i,
    {
        proof {
            assert(s@.take(i + 1 as int) =~= s@.take(i as int).push(s@[i as int]));
            lemma_escape_push(s@.take(i as int), s@[i as int]);
        }
        let b = s[i];
        if b == 34 {
            out.push(92);
            out.push(34);
        } else if b == 92 {
            out.push(92);
            out.push(92);
        } else if b == 8 {
            out.push(92);
            out.push(98);
        } else if b == 12 {
            out.push(92);
            out.push(102);
        } else if b == 10 {
            out.push(92);
            out.push(110);
        } else if b == 13 {
            out.push(92);
            out.push(114);
        } else if b == 9 {
            out.push(92);
            out.push(116);
        } else if b < 32 {
            out.push(92);
            out.push(117);
            out.push(48);
            out.push(48);
            let hi = b / 16;
            let lo = b % 16;
            out.push(if hi < 10 { 48 + hi } else { 87 + hi });
            out.push(if lo < 10 { 48 + lo } else { 87 + lo });
        } else {
            out.push(b);
        }
        proof {
            assert(out@ =~= old(out)@ + json_escape_spec(s@.take(i + 1 as int)));
        }
        i = i + 1;
    }
    proof {
        assert(s@.take(s@.len() as int) =~= s@);
    }
}

/// The request body for the generation endpoint: model, prompt, a
/// no-streaming flag, and fixed generation parameters.
pub open spec fn payload_spec(model: Seq<u8>, prompt: Seq<u8>) -> Seq<u8> {
    "{\"model\":\"".spec_bytes() + json_escape_spec(model) + "\",\"prompt\":\"".spec_bytes()
        + json_escape_spec(prompt)
        + "\",\"stream\":false,\"options\":{\"temperature\":0.7,\"top_p\":0.9,\"max_tokens\":4000}}".spec_bytes()
}

/// Builds the request body for the generation endpoint.
pub fn build_payload(model: &Vec<u8>, prompt: &Vec<u8>) -> (r: Vec<u8>)
    ensures
        r@ == payload_spec(model@, prompt@),
{
    let mut out: Vec<u8> = Vec::new();
    push_str(&mut out, "{\"model\":\"");
    push_json_escaped(&mut out, model.as_slice());
    push_str(&mut out, "\",\"prompt\":\"");
    push_json_escaped(&mut out, prompt.as_slice());
    push_str(
        &mut out,
        "\",\"stream\":false,\"options\":{\"temperature\":0.7,\"top_p\":0.9,\"max_tokens\":4000}}",
    );
    proof {
        assert(out@ =~= payload_spec(model@, prompt@));
    }
    out
}

/// The fixed local address of the generation endpoint.
pub fn endpoint_url() -> (r: &'static str)
    ensures
        r@ == "http://localhost:11434/api/generate"@,
{
    "http://localhost:11434/api/generate"
}

/// The bound, in seconds, on the single generation call.
pub fn request_timeout_secs() -> (r: u64)
    ensures
        r == 120,
{
    120
}

/// What the JSON reading of a response body yields for its `response` text
/// field: the field's bytes when the body is a JSON object carrying one,
/// nothing otherwise. The answer depends on the body bytes alone.
pub uninterp spec fn response_field_of(body: Seq<u8>) -> Option<Seq<u8>>;

/// Relies on serde_json's `from_slice`, `Value::get` and `Value::as_str`:
/// reads the response body as JSON and hands out its `response` string
/// field, or nothing when the body does not parse or carries no such field.
#[verifier::external_body]
pub(crate) fn extract_generation_field(body: &Vec<u8>) -> (r: Option<Vec<u8>>)
    ensures
        match r {
            Some(v) => response_field_of(body@) == Some(v@),
            None => response_field_of(body@) is None,
        },
{
    match serde_json::from_slice::<serde_json::Value>(body.as_slice()) {
        Ok(v) => match v.get("response") {
            Some(f) => match f.as_str() {
                Some(s) => Some(s.as_bytes().to_vec()),
                None => None,
            },
            None => None,
        },
        Err(_) => None,
    }
}

/// Interprets the generation endpoint's answer: a non-success status fails
/// with the status and model in the message; a success whose body carries
/// the text field succeeds with exactly that text, unmodified; a success
/// without it is a malformed response.
pub fn interpret_ai_response(status_ok: bool, status: u16, body: &Vec<u8>, model: &Vec<u8>) -> (r:
    Result<Vec<u8>, ReportError>)
    ensures
        !status_ok ==> (r matches Err(ReportError::AiServiceError(s, m)) && s == status && m@
            == model@),
        status_ok && response_field_of(body@) is Some ==> (r matches Ok(t) && Some(t@)
            == response_field_of(body@)),
        status_ok && response_field_of(body@) is None ==> (r matches Err(
            ReportError::AiResponseMalformed(m),
        ) && m@ == model@),
{
    if !status_ok {
        return Err(ReportError::AiServiceError(status, model.clone()));
    }
    match extract_generation_field(body) {
        Some(text) => Ok(text),
        None => Err(ReportError::AiResponseMalformed(model.clone())),
    }
}

} // verus!
