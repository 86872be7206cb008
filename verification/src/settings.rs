//! Server settings and the operating mode they select.
use vstd::prelude::*;

verus! {

/// The server's configuration, as the process loads it.
#[derive(Debug, Clone)]
pub struct Settings {
    /// The address to bind.
    pub address: String,
    /// The plain-HTTP port.
    pub port_http: u16,
    /// The TLS port.
    pub port_https: u16,
    /// Serve pages and API over plain HTTP.
    pub enable_http: bool,
    /// Serve only the API over plain HTTP; read when HTTP pages are off.
    pub enable_http_api: bool,
    /// Serve pages and API over TLS.
    pub enable_https: bool,
    /// Serve only the API over TLS; read when TLS pages are off.
    pub enable_https_api: bool,
    /// The database directory.
    pub db_dir: String,
    /// The assets directory.
    pub assets_dir: String,
    /// The certificate directory.
    pub certs_dir: String,
}

/// The operating mode a configuration selects.
#[derive(Debug, Clone, Copy, PartialEq, Eq, Structural)]
pub enum Mode {
    /// Nothing enabled.
    Off,
    /// Pages and API over plain HTTP.
    Http,
    /// API only, over plain HTTP.
    HttpApi,
    /// Pages and API over TLS.
    Https,
    /// API only, over TLS.
    HttpsApi,
    /// Pages over plain HTTP plus the API over TLS.
    HttpPlusHttpsApi,
    /// Pages over TLS plus the API over plain HTTP.
    HttpsPlusHttpApi,
    /// Pages and API on both.
    Both,
    /// API only, on both.
    BothApi,
}

/// Which mode the four switches select, first matching rule wins: full HTTP
/// alone, full TLS alone, one API-only listener, the mixed pairings, both
/// full listeners, both API-only listeners, or nothing.
pub open spec fn mode_of(s: Settings) -> Mode {
    if s.enable_http && !s.enable_https && !s.enable_https_api {
        Mode::Http
    } else if !s.enable_http && !s.enable_http_api && s.enable_https {
        Mode::Https
    } else if !s.enable_http && s.enable_http_api && !s.enable_https && !s.enable_https_api {
        Mode::HttpApi
    } else if !s.enable_http && !s.enable_http_api && !s.enable_https && s.enable_https_api {
        Mode::HttpsApi
    } else if s.enable_http && !s.enable_https && s.enable_https_api {
        Mode::HttpPlusHttpsApi
    } else if !s.enable_http && s.enable_http_api && s.enable_https {
        Mode::HttpsPlusHttpApi
    } else if s.enable_http && s.enable_https {
        Mode::Both
    } else if !s.enable_http && s.enable_http_api && !s.enable_https && s.enable_https_api {
        Mode::BothApi
    } else {
        Mode::Off
    }
}

/// The numeric encoding of each mode, used on the wire.
pub open spec fn mode_from_u8(m: u8) -> Mode {
    if m == 1 {
        Mode::Http
    } else if m == 2 {
        Mode::HttpApi
    } else if m == 3 {
        Mode::Https
    } else if m == 4 {
        Mode::HttpsApi
    } else if m == 5 {
        Mode::HttpPlusHttpsApi
    } else if m == 6 {
        Mode::HttpsPlusHttpApi
    } else if m == 7 {
        Mode::Both
    } else if m == 8 {
        Mode::BothApi
    } else {
        Mode::Off
    }
}

impl Settings {
    /// The operating mode the settings select.
    pub fn get_mode(&self) -> (r: Mode)
        ensures
            r == mode_of(*self),
    {
        if self.enable_http && !self.enable_https && !self.enable_https_api {
            Mode::Http
        } else if !self.enable_http && !self.enable_http_api && self.enable_https {
            Mode::Https
        } else if !self.enable_http && self.enable_http_api && !self.enable_https
            && !self.enable_https_api {
            Mode::HttpApi
        } else if !self.enable_http && !self.enable_http_api && !self.enable_https
            && self.enable_https_api {
            Mode::HttpsApi
        } else if self.enable_http && !self.enable_https && self.enable_https_api {
            Mode::HttpPlusHttpsApi
        } else if !self.enable_http && self.enable_http_api && self.enable_https {
            Mode::HttpsPlusHttpApi
        } else if self.enable_http && self.enable_https {
            Mode::Both
        } else if !self.enable_http && self.enable_http_api && !self.enable_https
            && self.enable_https_api {
            Mode::BothApi
        } else {
            Mode::Off
        }
    }
}

impl From<u8> for Mode {
    /// Decodes a mode from its numeric encoding; an unknown number reads as
    /// nothing enabled.
    fn from(mode: u8) -> (r: Mode) {
        if mode == 1 {
            Mode::Http
        } else if mode == 2 {
            Mode::HttpApi
        } else if mode == 3 {
            Mode::Https
        } else if mode == 4 {
            Mode::HttpsApi
        } else if mode == 5 {
            Mode::HttpPlusHttpsApi
        } else if mode == 6 {
            Mode::HttpsPlusHttpApi
        } else if mode == 7 {
            Mode::Both
        } else if mode == 8 {
            Mode::BothApi
        } else {
            Mode::Off
        }
    }
}

impl vstd::std_specs::convert::FromSpecImpl<u8> for Mode {
    open spec fn obeys_from_spec() -> bool {
        true
    }

    open spec fn from_spec(mode: u8) -> Mode {
        mode_from_u8(mode)
    }
}

} // verus!
