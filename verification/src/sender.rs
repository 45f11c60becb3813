//! The sending endpoint: connection settings and the progress sink.

use crate::progress::{Progressing, ProgressReporter};
use vstd::prelude::*;

verus! {

/// Milliseconds every timeout-wrapped network step is allowed to take
/// unless configured otherwise.
pub const DEFAULT_TIMEOUT_MS: u64 = 1000;

/// Connection settings for a [`Sender`]: where to connect, the two
/// ports, and the operation timeout. Immutable once an operation starts.
#[derive(Debug)]
pub struct ConfigSender {
    /// Address to connect to.
    pub addr: String,
    /// Port carrying the file bytes (the data channel).
    pub port_for_send_files: u16,
    /// Port carrying the handshake (the control channel).
    pub port_for_handshake: u16,
    /// How many milliseconds each network step may take.
    pub timeout_ms: u64,
}

/// Core trait for [`Sender`].
pub trait CoreSender {
    /// The configured connect address.
    spec fn spec_addr(&self) -> Seq<char>;

    /// The configured data-channel port.
    spec fn spec_port_for_send_files(&self) -> u16;

    /// The configured control-channel port.
    spec fn spec_port_for_handshake(&self) -> u16;

    /// The configured timeout in milliseconds.
    spec fn spec_timeout_ms(&self) -> u64;

    /// Get a copy of the connection settings.
    fn get_config(&self) -> (c: ConfigSender)
        ensures
            c.addr@ == self.spec_addr(),
            c.port_for_send_files == self.spec_port_for_send_files(),
            c.port_for_handshake == self.spec_port_for_handshake(),
            c.timeout_ms == self.spec_timeout_ms(),
    ;

    /// Install or remove the progress sink for following operations;
    /// the connection settings stay as they are.
    fn set_progress_fn(&mut self, progress_fn: Option<ProgressReporter>)
        ensures
            final(self).spec_addr() == old(self).spec_addr(),
            final(self).spec_port_for_send_files() == old(self).spec_port_for_send_files(),
            final(self).spec_port_for_handshake() == old(self).spec_port_for_handshake(),
            final(self).spec_timeout_ms() == old(self).spec_timeout_ms(),
    ;
}

/// The sending endpoint. Stores connection settings and the optional
/// progress sink; the transfer logic itself lives in the engine modules.
pub struct Sender {
    /// Connection settings.
    pub config: ConfigSender,
    /// Where progress events go, when progress tracking is wanted.
    pub progress_fn: Option<ProgressReporter>,
}

impl Sender {
    /// A sender that will connect to `addr`, moving file bytes over
    /// `port_for_send_files` and the handshake over
    /// `port_for_handshake`, with the default timeout and no progress
    /// sink.
    pub fn new(addr: String, port_for_send_files: u16, port_for_handshake: u16) -> (s: Sender)
        ensures
            s.config.addr@ == addr@,
            s.config.port_for_send_files == port_for_send_files,
            s.config.port_for_handshake == port_for_handshake,
            s.config.timeout_ms == DEFAULT_TIMEOUT_MS,
            s.progress_fn is None,
    {
        Sender {
            config: ConfigSender {
                addr,
                port_for_send_files,
                port_for_handshake,
                timeout_ms: DEFAULT_TIMEOUT_MS,
            },
            progress_fn: None,
        }
    }

    /// Hand one progress event to the installed sink, if any.
    pub fn run_progress_fn(&mut self, progressing: Progressing)
        ensures
            final(self).config == old(self).config,
            old(self).progress_fn matches Some(r) ==> (final(self).progress_fn matches Some(
                f,
            ) && f.events@ == r.events@.push(progressing)),
            old(self).progress_fn is None ==> final(self).progress_fn is None,
    {
        let taken = self.progress_fn.take();
        match taken {
            Some(mut r) => {
                r.on_event(progressing);
                self.progress_fn = Some(r);
            },
            None => {},
        }
    }

    /// How many progress events the installed sink has seen (none
    /// without a sink).
    pub fn progress_event_count(&self) -> (n: usize)
        ensures
            self.progress_fn matches Some(r) ==> n == r.events@.len(),
            self.progress_fn is None ==> n == 0,
    {
        match &self.progress_fn {
            Some(r) => r.event_count(),
            None => 0,
        }
    }
}

impl CoreSender for Sender {
    open spec fn spec_addr(&self) -> Seq<char> {
        self.config.addr@
    }

    open spec fn spec_port_for_send_files(&self) -> u16 {
        self.config.port_for_send_files
    }

    open spec fn spec_port_for_handshake(&self) -> u16 {
        self.config.port_for_handshake
    }

    open spec fn spec_timeout_ms(&self) -> u64 {
        self.config.timeout_ms
    }

    fn get_config(&self) -> ConfigSender {
        ConfigSender {
            addr: self.config.addr.clone(),
            port_for_send_files: self.config.port_for_send_files,
            port_for_handshake: self.config.port_for_handshake,
            timeout_ms: self.config.timeout_ms,
        }
    }

    fn set_progress_fn(&mut self, progress_fn: Option<ProgressReporter>) {
        self.progress_fn = progress_fn;
    }
}

} // verus!
