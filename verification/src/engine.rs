//! The substitution engine: repeatedly find the first embedded-script
//! region, run its script, splice the trimmed output in, and continue on
//! the rest of the text until no region is left.

use vstd::prelude::*;
use vstd::string::{StrSliceExecFns, StringExecFns};

use crate::matching::{find_first_region, first_region, has_region, lemma_first_region_unique};
use crate::shell::{capture_script_stdout, ExecutionFailure};
use crate::trim::{trim_ascii_whitespace, trimmed};

verus! {

/// What the whole expansion of `text` returns when the scripts of the
/// regions met along the way, in order, produce the captured outputs
/// `outs`.  Each region is replaced by its output trimmed of ASCII
/// whitespace; with `recur` the trimmed output is itself rescanned
/// together with the rest of the text, without it the output is final and
/// only the rest is rescanned.  `None` means that the expansion meets more
/// regions than `outs` answers for.
pub open spec fn expanded(
    text: Seq<char>,
    open: Seq<char>,
    close: Seq<char>,
    recur: bool,
    outs: Seq<Seq<char>>,
) -> Option<Seq<char>>
    decreases outs.len(),
{
    if !has_region(text, open, close) {
        Some(text)
    } else if outs.len() == 0 {
        None
    } else {
        let p = first_region(text, open, close);
        let before = text.subrange(0, p.0);
        let after = text.subrange(p.1, text.len() as int);
        let out = trimmed(outs[0]);
        if recur {
            match expanded(out + after, open, close, recur, outs.drop_first()) {
                Some(rest) => Some(before + rest),
                None => None,
            }
        } else {
            match expanded(after, open, close, recur, outs.drop_first()) {
                Some(rest) => Some(before + out + rest),
                None => None,
            }
        }
    }
}

/// Splits `text` around its first embedded-script region into the text
/// before the opening tag, the script strictly between the tags, and the
/// text after the closing tag.  Returns `None` when `text` has no region.
pub fn split_first_region(text: &str, open: &str, close: &str) -> (r: Option<
    (String, String, String),
>)
    requires
        open@.len() >= 1,
        close@.len() >= 1,
    ensures
        match r {
            Some(parts) => has_region(text@, open@, close@) && ({
                let p = first_region(text@, open@, close@);
                &&& parts.0@ == text@.subrange(0, p.0)
                &&& parts.1@ == text@.subrange(p.0 + open@.len(), p.1 - close@.len())
                &&& parts.2@ == text@.subrange(p.1, text@.len() as int)
            }),
            None => !has_region(text@, open@, close@),
        },
{
    match find_first_region(text, open, close) {
        None => None,
        Some((s, e)) => {
            proof {
                lemma_first_region_unique(text@, open@, close@, s as int, e as int);
            }
            let n: usize = text.unicode_len();
            let ol: usize = open.unicode_len();
            let cl: usize = close.unicode_len();
            assert(s + ol <= e - cl && e <= n);
            let before = text.substring_char(0, s).to_owned();
            let script = text.substring_char(s + ol, e - cl).to_owned();
            let after = text.substring_char(e, n).to_owned();
            Some((before, script, after))
        },
    }
}

/// Splices one script's captured output into the surrounding text.  The
/// output is trimmed of ASCII whitespace.  The first returned string is
/// finished text that is never scanned again; the second is the text still
/// to be scanned.  With `recur` the trimmed output starts the text still
/// to be scanned; without it the trimmed output ends the finished text.
pub fn splice_output(before: String, output: &str, after: &str, recur: bool) -> (r: (
    String,
    String,
))
    ensures
        recur ==> r.0@ == before@ && r.1@ == trimmed(output@) + after@,
        !recur ==> r.0@ == before@ + trimmed(output@) && r.1@ == after@,
{
    let out = trim_ascii_whitespace(output);
    if recur {
        (before, out.concat(after))
    } else {
        let mut finished = before;
        finished.append(out.as_str());
        (finished, after.to_owned())
    }
}

/// Runs all scripts that are embedded within the given text.  Scripts are
/// identified using the given opening and closing tags, always by their
/// leftmost region first, and each region is replaced by the trimmed
/// standard output of its script.  If `recur` is true, script outputs are
/// themselves scanned for further embedded scripts as they are generated;
/// otherwise they are taken as final text.  Text without any region, in
/// particular text never mentioning the opening tag, comes back unchanged.
/// The first script whose execution fails aborts everything: the failure
/// is returned and no partial output is kept.  An expansion that would
/// execute more scripts than the engine's step bound — possible only when
/// scripts keep reintroducing their own tags under `recur` — is abandoned
/// with `ExecutionFailure::StepLimit` rather than run forever.  The result
/// is exactly what `expanded` says for the outputs the scripts actually
/// produced, though which outputs those are only the scripts and the
/// environment decide.
#[verifier::loop_isolation(false)]
#[verifier::rlimit(50)]
pub fn run_embedded_scripts(
    text: String,
    opening_tag: &str,
    closing_tag: &str,
    recur: bool,
) -> (r: Result<String, ExecutionFailure>)
    requires
        opening_tag@.len() >= 1,
        closing_tag@.len() >= 1,
    ensures
        !has_region(text@, opening_tag@, closing_tag@) ==> (r matches Ok(out) && out@ == text@),
        r matches Ok(out) ==> exists|outs: Seq<Seq<char>>|
            #[trigger] expanded(text@, opening_tag@, closing_tag@, recur, outs) == Some(out@),
        r matches Err(_) ==> has_region(text@, opening_tag@, closing_tag@),
{
    let ghost orig: Seq<char> = text@;
    let mut acc = String::new();
    let mut buf = text;
    let mut steps_left: usize = usize::MAX;
    let ghost mut outs: Seq<Seq<char>> = Seq::empty();
    proof {
        assert forall|future: Seq<Seq<char>>|
            (#[trigger] expanded(buf@, opening_tag@, closing_tag@, recur, future)) is Some
                implies expanded(orig, opening_tag@, closing_tag@, recur, outs + future) == Some(
            acc@ + expanded(buf@, opening_tag@, closing_tag@, recur, future)->0,
        ) by {
            let sub = expanded(buf@, opening_tag@, closing_tag@, recur, future);
            assert(outs + future =~= future);
            assert(acc@ + sub->0 =~= sub->0);
        }
    }
    loop
        invariant
            opening_tag@.len() >= 1,
            closing_tag@.len() >= 1,
            (acc@ == Seq::<char>::empty() && buf@ == orig) || has_region(
                orig,
                opening_tag@,
                closing_tag@,
            ),
            forall|future: Seq<Seq<char>>|
                (#[trigger] expanded(buf@, opening_tag@, closing_tag@, recur, future)) is Some
                    ==> expanded(orig, opening_tag@, closing_tag@, recur, outs + future) == Some(
                    acc@ + expanded(buf@, opening_tag@, closing_tag@, recur, future)->0,
                ),
        decreases steps_left,
    {
        match split_first_region(buf.as_str(), opening_tag, closing_tag) {
            None => {
                let ghost old_acc: Seq<char> = acc@;
                let ghost old_buf: Seq<char> = buf@;
                acc.append(buf.as_str());
                proof {
                    let future = Seq::<Seq<char>>::empty();
                    assert(expanded(old_buf, opening_tag@, closing_tag@, recur, future) == Some(
                        old_buf,
                    ));
                    assert(outs + future =~= outs);
                    assert(expanded(orig, opening_tag@, closing_tag@, recur, outs) == Some(
                        old_acc + old_buf,
                    ));
                    assert(acc@ == old_acc + old_buf);
                    assert(Seq::<char>::empty() + old_buf =~= old_buf);
                }
                return Ok(acc);
            },
            Some(parts) => {
                if steps_left == 0 {
                    return Err(ExecutionFailure::StepLimit);
                }
                steps_left -= 1;
                let (before, script, after) = parts;
                match capture_script_stdout(script.as_str()) {
                    Err(e) => {
                        return Err(ExecutionFailure::Process(e));
                    },
                    Ok(raw) => {
                        let ghost old_buf: Seq<char> = buf@;
                        let ghost old_acc: Seq<char> = acc@;
                        let ghost old_outs: Seq<Seq<char>> = outs;
                        let (finished, rest) = splice_output(
                            before,
                            raw.as_str(),
                            after.as_str(),
                            recur,
                        );
                        acc.append(finished.as_str());
                        buf = rest;
                        proof {
                            outs = outs.push(raw@);
                            let o = opening_tag@;
                            let c = closing_tag@;
                            let p = first_region(old_buf, o, c);
                            assert forall|future: Seq<Seq<char>>|
                                (#[trigger] expanded(buf@, o, c, recur, future)) is Some
                                    implies expanded(orig, o, c, recur, outs + future) == Some(
                                acc@ + expanded(buf@, o, c, recur, future)->0,
                            ) by {
                                let subo = expanded(buf@, o, c, recur, future);
                                let sub = subo->0;
                                let ofuture = seq![raw@] + future;
                                let before_part = old_buf.subrange(0, p.0);
                                let after_part = old_buf.subrange(p.1, old_buf.len() as int);
                                let mid = if recur {
                                    sub
                                } else {
                                    trimmed(raw@) + sub
                                };
                                assert(ofuture[0] == raw@);
                                assert(ofuture.drop_first() =~= future);
                                assert(ofuture.len() > 0);
                                if recur {
                                    assert(buf@ == trimmed(raw@) + after_part);
                                } else {
                                    assert(buf@ == after_part);
                                    assert((before_part + trimmed(raw@)) + sub =~= before_part + (
                                    trimmed(raw@) + sub));
                                }
                                assert(expanded(old_buf, o, c, recur, ofuture) == Some(
                                    before_part + mid,
                                ));
                                assert(expanded(orig, o, c, recur, old_outs + ofuture) == Some(
                                    old_acc + (before_part + mid),
                                ));
                                assert(old_outs + ofuture =~= outs + future);
                                assert(old_acc + (before_part + mid) =~= acc@ + sub);
                            }
                        }
                    },
                }
            },
        }
    }
}

} // verus!
