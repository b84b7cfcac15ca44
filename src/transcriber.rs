//! Where the speech-to-text engine and its model are found.
use vstd::prelude::*;
use vstd::string::StringExecFns;
use crate::paths::last_char_before;
use crate::text::{chars_of, copy_str, string_range};

verus! {

/// Where to look for the engine, in order.
pub open spec fn engine_candidate(i: int) -> Seq<char> {
    if i == 0 {
        "whisper/Release/whisper-cli.exe"@
    } else if i == 1 {
        "../../whisper/Release/whisper-cli.exe"@
    } else {
        "../../../whisper/Release/whisper-cli.exe"@
    }
}

/// The model used when none is named.
pub open spec fn default_model() -> Seq<char> {
    "medium.en"@
}

/// A path up to its last `/`; empty for a bare name; none for an empty path.
pub open spec fn parent_of(p: Seq<char>) -> Option<Seq<char>> {
    if p.len() == 0 {
        None
    } else {
        let k = last_char_before(p, '/', p.len() as int);
        Some(
            if k < 0 {
                Seq::empty()
            } else {
                p.take(k)
            },
        )
    }
}

/// The directory two levels above the engine, which holds `models/`.
pub open spec fn engine_root(engine: Seq<char>) -> Option<Seq<char>> {
    match parent_of(engine) {
        Some(d) => parent_of(d),
        None => None,
    }
}

/// The model file `models/ggml-<model>.bin` under `root`.
pub open spec fn model_file(root: Seq<char>, model: Seq<char>) -> Seq<char> {
    let rel = "models/ggml-"@ + model + ".bin"@;
    if root.len() == 0 {
        rel
    } else {
        root + seq!['/'] + rel
    }
}

/// Why no engine could be set up.
#[derive(PartialEq, Eq, Structural, Clone, Copy, Debug)]
pub enum TranscriberError {
    /// None of the candidate paths holds the engine.
    WhisperNotFound,
    /// The engine's path has no directory two levels up.
    InvalidWhisperPath,
}

/// The speech-to-text engine and the model it runs.
#[derive(Debug)]
pub struct Transcriber {
    pub whisper_path: String,
    pub model_path: String,
    pub model_type: String,
}

/// The paths where the engine is looked for, in order.
pub fn whisper_candidates() -> (r: Vec<String>)
    ensures
        r@.len() == 3,
        forall|i: int| 0 <= i < 3 ==> (#[trigger] r@[i])@ == engine_candidate(i),
{
    let mut r: Vec<String> = Vec::new();
    r.push(copy_str("whisper/Release/whisper-cli.exe"));
    r.push(copy_str("../../whisper/Release/whisper-cli.exe"));
    r.push(copy_str("../../../whisper/Release/whisper-cli.exe"));
    r
}

fn parent_exec(p: &Vec<char>) -> (r: Option<Vec<char>>)
    ensures
        match parent_of(p@) {
            Some(d) => r matches Some(v) && v@ == d,
            None => r is None,
        },
{
    if p.len() == 0 {
        return None;
    }
    let mut j: usize = p.len();
    while j > 0 && p[j - 1] != '/'
        invariant
            j <= p@.len(),
            last_char_before(p@, '/', p@.len() as int) == last_char_before(p@, '/', j as int),
        decreases j,
    {
        j = j - 1;
    }
    let mut v: Vec<char> = Vec::new();
    if j > 0 {
        let mut i: usize = 0;
        while i < j - 1
            invariant
                j <= p@.len(),
                i <= j - 1,
                v@ == p@.take(i as int),
            decreases j - 1 - i,
        {
            v.push(p[i]);
            i = i + 1;
            assert(v@ =~= p@.take(i as int));
        }
    } else {
        assert(v@ =~= Seq::<char>::empty());
    }
    Some(v)
}

impl Transcriber {
    /// The engine at `found` (the first candidate that exists, if any) with
    /// model `model_type`.
    pub fn with_model(model_type: &str, found: Option<String>) -> (r: Result<
        Transcriber,
        TranscriberError,
    >)
        ensures
            found is None ==> r == Err::<Transcriber, TranscriberError>(
                TranscriberError::WhisperNotFound,
            ),
            found matches Some(w) ==> match engine_root(w@) {
                None => r == Err::<Transcriber, TranscriberError>(
                    TranscriberError::InvalidWhisperPath,
                ),
                Some(root) => r matches Ok(t) && t.whisper_path@ == w@ && t.model_type@
                    == model_type@ && t.model_path@ == model_file(root, model_type@),
            },
    {
        let w = match found {
            Some(w) => w,
            None => {
                return Err(TranscriberError::WhisperNotFound);
            },
        };
        let p = chars_of(w.as_str());
        let root = match parent_exec(&p) {
            Some(d) => match parent_exec(&d) {
                Some(r) => r,
                None => {
                    return Err(TranscriberError::InvalidWhisperPath);
                },
            },
            None => {
                return Err(TranscriberError::InvalidWhisperPath);
            },
        };
        let mut m = if root.len() == 0 {
            String::new()
        } else {
            let mut s = string_range(&root, 0, root.len());
            s.append("/");
            s
        };
        m.append("models/ggml-");
        m.append(model_type);
        m.append(".bin");
        proof {
            reveal_strlit("/");
            assert(root@.subrange(0, root@.len() as int) =~= root@);
            if root@.len() == 0 {
                assert(m@ =~= model_file(root@, model_type@));
            } else {
                assert(m@ =~= model_file(root@, model_type@));
            }
        }
        Ok(Transcriber { whisper_path: w, model_path: m, model_type: copy_str(model_type) })
    }

    /// The engine at `found` with the default model.
    pub fn new(found: Option<String>) -> (r: Result<Transcriber, TranscriberError>)
        ensures
            found is None ==> r == Err::<Transcriber, TranscriberError>(
                TranscriberError::WhisperNotFound,
            ),
            found matches Some(w) ==> match engine_root(w@) {
                None => r == Err::<Transcriber, TranscriberError>(
                    TranscriberError::InvalidWhisperPath,
                ),
                Some(root) => r matches Ok(t) && t.whisper_path@ == w@ && t.model_type@
                    == default_model() && t.model_path@ == model_file(root, default_model()),
            },
    {
        Transcriber::with_model("medium.en", found)
    }
}

} // verus!
