//! Handling of audio requests drained from the shared state. The host
//! drains the queue on the presentation thread and hands the batch
//! here; no request is ever rejected.

use vstd::prelude::*;

use crate::data::AudioRequest;

verus! {

/// The audio module of the presentation loop: takes each drained audio
/// request in order and handles it.
pub struct AudioModule {}

impl AudioModule {
    pub fn new() -> (r: AudioModule) {
        AudioModule {  }
    }

    /// Handle every request of one drained batch, in order. Never
    /// fails: audio playback has no failing requests here.
    pub fn update(&mut self, requests: &Vec<AudioRequest>) -> (r: Result<(), String>)
        ensures
            r is Ok,
    {
        let n = requests.len();
        let mut i: usize = 0;
        while i < n
            invariant
                i <= n,
                n == requests@.len(),
            decreases n - i,
        {
            let request = requests[i];
            match self.handle_request(&request) {
                Ok(()) => {},
                Err(e) => {
                    return Err(e);
                },
            }
            i = i + 1;
        }
        Ok(())
    }

    /// Handle one audio request. Accepts every request.
    pub fn handle_request(&mut self, request: &AudioRequest) -> (r: Result<(), String>)
        ensures
            r is Ok,
    {
        let _ = request;
        Ok(())
    }
}

/// The request handler behind the audio module, kept apart so hosts
/// that own their own drain loop can feed it request by request.
pub struct AudioSystem {}

impl AudioSystem {
    pub fn new() -> (r: AudioSystem) {
        AudioSystem {  }
    }

    /// Handle one audio request. Accepts every request.
    pub fn handle_request(&mut self, request: &AudioRequest) -> (r: Result<(), String>)
        ensures
            r is Ok,
    {
        let _ = request;
        Ok(())
    }
}

} // verus!
