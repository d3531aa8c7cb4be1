//! Socket-level configuration of the engine.

use vstd::prelude::*;

verus! {

/// The address of a peer: an IPv4 or IPv6 address as a number, and a port.
#[derive(Clone, Copy, Debug, PartialEq, Eq, Structural)]
pub struct PeerAddr {
    /// Whether `ip` is an IPv6 address; otherwise its low 32 bits are an
    /// IPv4 address.
    pub v6: bool,
    pub ip: u128,
    pub port: u16,
}

/// Configuration that the reader, the framer and the response emitter
/// consume.
#[derive(Debug)]
pub struct Options {
    pub no_delay: bool,
    pub read_timeout_miliseconds: u64,
    pub root_path: String,
    pub read_buffer_size: usize,
    pub read_max_retry: u8,
    pub read_imcomplete_size: usize,
    pub current_client_addr: Option<PeerAddr>,
    pub zero_copy_threshold: usize,
    pub enable_file_cache: bool,
}

impl Clone for Options {
    fn clone(&self) -> (r: Options)
        ensures
            r == *self,
    {
        Options {
            no_delay: self.no_delay,
            read_timeout_miliseconds: self.read_timeout_miliseconds,
            root_path: self.root_path.clone(),
            read_buffer_size: self.read_buffer_size,
            read_max_retry: self.read_max_retry,
            read_imcomplete_size: self.read_imcomplete_size,
            current_client_addr: self.current_client_addr,
            zero_copy_threshold: self.zero_copy_threshold,
            enable_file_cache: self.enable_file_cache,
        }
    }
}

impl Options {
    /// The default configuration, serving files below `root_path`.
    pub fn new(root_path: String) -> (r: Options)
        ensures
            r.no_delay,
            r.read_timeout_miliseconds == 3000,
            r.root_path == root_path,
            r.read_buffer_size == 4096,
            r.read_max_retry == 3,
            r.read_imcomplete_size == 0,
            r.current_client_addr is None,
            r.zero_copy_threshold == 1024 * 1024,
            r.enable_file_cache,
    {
        Options {
            no_delay: true,
            read_timeout_miliseconds: 3000,
            root_path,
            read_buffer_size: 4096,
            read_max_retry: 3,
            read_imcomplete_size: 0,
            current_client_addr: None,
            zero_copy_threshold: 1024 * 1024,
            enable_file_cache: true,
        }
    }

    /// The address of the client whose connection was accepted last, if
    /// any.
    pub fn get_request_ip(&self) -> (r: Option<PeerAddr>)
        ensures
            r == self.current_client_addr,
    {
        self.current_client_addr
    }

    /// Sets the file size up to which a file is served through the cache.
    pub fn set_zero_copy_threshold(&mut self, threshold: usize)
        ensures
            final(self).zero_copy_threshold == threshold,
            final(self).no_delay == old(self).no_delay,
            final(self).read_timeout_miliseconds == old(self).read_timeout_miliseconds,
            final(self).root_path == old(self).root_path,
            final(self).read_buffer_size == old(self).read_buffer_size,
            final(self).read_max_retry == old(self).read_max_retry,
            final(self).read_imcomplete_size == old(self).read_imcomplete_size,
            final(self).current_client_addr == old(self).current_client_addr,
            final(self).enable_file_cache == old(self).enable_file_cache,
    {
        self.zero_copy_threshold = threshold;
    }

    /// Switches the file cache on or off.
    pub fn enable_zero_copy_cache(&mut self, enable: bool)
        ensures
            final(self).enable_file_cache == enable,
            final(self).no_delay == old(self).no_delay,
            final(self).read_timeout_miliseconds == old(self).read_timeout_miliseconds,
            final(self).root_path == old(self).root_path,
            final(self).read_buffer_size == old(self).read_buffer_size,
            final(self).read_max_retry == old(self).read_max_retry,
            final(self).read_imcomplete_size == old(self).read_imcomplete_size,
            final(self).current_client_addr == old(self).current_client_addr,
            final(self).zero_copy_threshold == old(self).zero_copy_threshold,
    {
        self.enable_file_cache = enable;
    }
}

} // verus!
