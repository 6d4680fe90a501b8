//! The queue of requests between the views and the analysis. Requests made
//! during one frame are handled in the next.
use crate::address::Address;
use crate::ir::expression::VariableSymbol;
use vstd::prelude::*;

verus! {

/// A request.
#[derive(Debug, PartialEq, Eq)]
pub enum SignalKind {
    /// A file has been opened. A notice to the views; the analysis does not
    /// act on it.
    NewOpenFile,
    /// The listing has changed. A notice to the views; the analysis does not
    /// act on it.
    RepopulateInstructionRows,
    /// Show the function at this address.
    RequestPos(Address),
    /// Give this symbol this name.
    RenameSymbol(VariableSymbol, String),
    /// Analyse the function that starts at this address.
    DefineFunctionStart(Address),
    /// Decode instructions from this address on.
    MarkInstruction(Address),
}

/// The requests of the frame that is being handled, and those made since it
/// began.
pub struct TabSignals {
    pub signals: Vec<SignalKind>,
    pub new_signals: Vec<SignalKind>,
}

impl TabSignals {
    pub fn new() -> (s: TabSignals)
        ensures
            s.signals@.len() == 0,
            s.new_signals@.len() == 0,
    {
        TabSignals { signals: Vec::new(), new_signals: Vec::new() }
    }

    /// Starts a frame: the requests made since the last frame began become
    /// the ones to handle, and those of the last frame are dropped.
    pub fn new_frame(&mut self)
        ensures
            final(self).signals@ == old(self).new_signals@,
            final(self).new_signals@.len() == 0,
    {
        let mut fresh: Vec<SignalKind> = Vec::new();
        core::mem::swap(&mut self.new_signals, &mut fresh);
        self.signals = fresh;
    }

    /// The number of requests of the frame that is being handled.
    pub fn len(&self) -> (n: usize)
        ensures
            n == self.signals@.len(),
    {
        self.signals.len()
    }

    /// The `i`-th request of the frame that is being handled.
    pub fn get(&self, i: usize) -> (s: &SignalKind)
        requires
            i < self.signals@.len(),
        ensures
            *s == self.signals@[i as int],
    {
        &self.signals[i]
    }

    pub fn request_pos(&mut self, address: Address)
        ensures
            final(self).signals@ == old(self).signals@,
            final(self).new_signals@ == old(self).new_signals@.push(SignalKind::RequestPos(address)),
    {
        self.new_signals.push(SignalKind::RequestPos(address));
    }

    pub fn define_function(&mut self, address: u64)
        ensures
            final(self).signals@ == old(self).signals@,
            final(self).new_signals@ == old(self).new_signals@.push(
                SignalKind::DefineFunctionStart(Address(address)),
            ),
    {
        self.new_signals.push(SignalKind::DefineFunctionStart(Address(address)));
    }

    pub fn mark_instruction(&mut self, address: Address)
        ensures
            final(self).signals@ == old(self).signals@,
            final(self).new_signals@ == old(self).new_signals@.push(
                SignalKind::MarkInstruction(address),
            ),
    {
        self.new_signals.push(SignalKind::MarkInstruction(address));
    }

    pub fn rename_symbol(&mut self, symbol: VariableSymbol, name: String)
        ensures
            final(self).signals@ == old(self).signals@,
            final(self).new_signals@ == old(self).new_signals@.push(
                SignalKind::RenameSymbol(symbol, name),
            ),
    {
        self.new_signals.push(SignalKind::RenameSymbol(symbol, name));
    }

    pub fn new_open_file(&mut self)
        ensures
            final(self).signals@ == old(self).signals@,
            final(self).new_signals@ == old(self).new_signals@.push(SignalKind::NewOpenFile),
    {
        self.new_signals.push(SignalKind::NewOpenFile);
    }

    pub fn repopulate_instruction_rows(&mut self)
        ensures
            final(self).signals@ == old(self).signals@,
            final(self).new_signals@ == old(self).new_signals@.push(
                SignalKind::RepopulateInstructionRows,
            ),
    {
        self.new_signals.push(SignalKind::RepopulateInstructionRows);
    }
}

} // verus!
