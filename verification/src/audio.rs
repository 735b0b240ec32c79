use vstd::prelude::*;
use vstd::string::StrSliceExecFns;

verus! {

/// The ending of the names of the sound files that the game plays.
pub open spec fn wav_ending() -> Seq<char> {
    seq!['.', 'w', 'a', 'v']
}

/// Whether `name` ends in ".wav".
pub open spec fn is_wav_name(name: Seq<char>) -> bool {
    name.len() >= 4 && name.subrange(name.len() - 4, name.len() as int) == wav_ending()
}

/// The test that picks the names of sound files.
pub open spec fn wav_named() -> spec_fn(String) -> bool {
    |name: String| is_wav_name(name@)
}

/// Whether `name` is the name of a sound file: whether it ends in ".wav".
pub fn is_wav(name: &str) -> (wav: bool)
    ensures
        wav == is_wav_name(name@),
{
    let len = name.unicode_len();
    if len < 4 {
        return false;
    }
    let wav = name.get_char(len - 4) == '.' && name.get_char(len - 3) == 'w' && name.get_char(
        len - 2,
    ) == 'a' && name.get_char(len - 1) == 'v';
    proof {
        let ending = name@.subrange(len - 4, len as int);
        if wav {
            assert(ending =~= wav_ending());
        } else {
            assert(ending[0] == name@[len - 4]);
            assert(ending[1] == name@[len - 3]);
            assert(ending[2] == name@[len - 2]);
            assert(ending[3] == name@[len - 1]);
        }
    }
    wav
}

/// The sound files among `names`: those that end in ".wav", in the order
/// in which they came.
pub fn wav_files(names: &Vec<String>) -> (files: Vec<String>)
    ensures
        files@ == names@.filter(wav_named()),
{
    let mut files: Vec<String> = Vec::new();
    let mut i: usize = 0;
    proof {
        reveal(Seq::filter);
        assert(names@.take(0) =~= Seq::empty());
    }
    while i < names.len()
        invariant
            i <= names@.len(),
            files@ == names@.take(i as int).filter(wav_named()),
        decreases names@.len() - i,
    {
        proof {
            names@.lemma_take_succ_push(i as int);
            names@.take(i as int).lemma_filter_push(names@[i as int], wav_named());
        }
        if is_wav(names[i].as_str()) {
            files.push(names[i].clone());
        }
        i += 1;
    }
    assert(names@.take(i as int) =~= names@);
    files
}

/// The name of a clip: the part of the file name `name` before its first
/// '.', or all of it where it holds none.
pub fn file_name(name: &String) -> (clip: String)
    ensures
        clip@.len() <= name@.len(),
        clip@ == name@.take(clip@.len() as int),
        !clip@.contains('.'),
        clip@.len() < name@.len() ==> name@[clip@.len() as int] == '.',
{
    let text = name.as_str();
    let len = text.unicode_len();
    let mut end: usize = 0;
    while end < len && text.get_char(end) != '.'
        invariant
            end <= len,
            len == text@.len(),
            forall|j: int| 0 <= j < end ==> text@[j] != '.',
        decreases len - end,
    {
        end += 1;
    }
    let clip = text.substring_char(0, end).to_owned();
    assert(clip@ =~= name@.take(end as int));
    clip
}

} // verus!
