//! Pass-through audio handling. The cloud synthesizers already return
//! compressed audio, so optimization is currently the identity on the bytes.

use vstd::prelude::*;

verus! {

pub struct AudioProcessor {}

impl AudioProcessor {
    pub fn new() -> (r: AudioProcessor) {
        AudioProcessor {}
    }

    /// Returns the audio bytes unchanged: the synthesizers already emit
    /// audio in its final compressed form.
    pub fn optimize_for_whatsapp(&self, audio_data: &[u8]) -> (r: Vec<u8>)
        ensures
            r@ == audio_data@,
    {
        let mut out: Vec<u8> = Vec::new();
        let mut i: usize = 0;
        while i < audio_data.len()
            invariant
                i <= audio_data@.len(),
                out@ == audio_data@.subrange(0, i as int),
            decreases audio_data@.len() - i,
        {
            out.push(audio_data[i]);
            i = i + 1;
            assert(out@ =~= audio_data@.subrange(0, i as int));
        }
        assert(out@ =~= audio_data@);
        out
    }
}

} // verus!
