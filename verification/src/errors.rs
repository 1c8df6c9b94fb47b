//! Operational error catalogue.
//!
//! Dropper's user-facing failures are a small, closed set. Each one carries
//! a stable `Exxx` code, a short machine-ish name, a plain-language cause, a
//! concrete fix, and the `/help/...` block-page route that explains it in
//! full. This module is the single source of truth for the installer
//! dialog, tray tooltip, toast and help page, so the code, cause, fix and
//! link never drift apart.
use vstd::prelude::*;
use crate::text::same_text;

verus! {

/// A user-facing operational failure with a stable `Exxx` code.
#[derive(Clone, Copy, Debug, PartialEq, Eq, Structural)]
pub enum OperationalError {
    /// UDP/53 is already held by another process.
    Port53Occupied,
    /// The URLhaus blocklist is past its freshness window.
    FeedStale,
    /// Uninstall could not revert DNS on every adapter.
    DnsRestorePartial,
    /// An active VPN / alternate DNS bypasses Dropper.
    VpnDetected,
}

/// The stable `Exxx` code of `e`.
pub open spec fn code_of(e: OperationalError) -> Seq<char> {
    match e {
        OperationalError::Port53Occupied => "E001"@,
        OperationalError::FeedStale => "E002"@,
        OperationalError::DnsRestorePartial => "E003"@,
        OperationalError::VpnDetected => "E004"@,
    }
}

/// The SCREAMING_SNAKE machine name of `e`.
pub open spec fn name_of(e: OperationalError) -> Seq<char> {
    match e {
        OperationalError::Port53Occupied => "PORT_53_OCCUPIED"@,
        OperationalError::FeedStale => "FEED_STALE"@,
        OperationalError::DnsRestorePartial => "DNS_RESTORE_PARTIAL"@,
        OperationalError::VpnDetected => "VPN_DETECTED"@,
    }
}

/// The plain-language cause of `e`.
pub open spec fn cause_of(e: OperationalError) -> Seq<char> {
    match e {
        OperationalError::Port53Occupied => "Another program is already using UDP port 53, the DNS port Dropper needs to answer queries."@,
        OperationalError::FeedStale => "The URLhaus blocklist has not refreshed within its freshness window, so newly listed threats may be missing."@,
        OperationalError::DnsRestorePartial => "During uninstall, Dropper could not restore the original DNS settings on one or more network adapters (an adapter was changed or removed since install)."@,
        OperationalError::VpnDetected => "A VPN or alternate DNS is active and routing queries around Dropper's local resolver, so blocking may be silently bypassed."@,
    }
}

/// The corrective action offered for `e`.
pub open spec fn fix_of(e: OperationalError) -> Seq<char> {
    match e {
        OperationalError::Port53Occupied => "Stop the conflicting DNS service (often Internet Connection Sharing, another DNS filter, or a local resolver) and restart Dropper, or let Dropper use its fallback port."@,
        OperationalError::FeedStale => "Check this machine's internet connection; Dropper keeps using the last good list and retries automatically."@,
        OperationalError::DnsRestorePartial => "Open Network adapter settings and set DNS back to Automatic (DHCP) on the affected adapters."@,
        OperationalError::VpnDetected => "Point the VPN at Dropper's resolver or enable split tunneling for DNS; otherwise expect reduced coverage while the VPN is on."@,
    }
}

/// The block-page route that explains `e` in full.
pub open spec fn doc_path_of(e: OperationalError) -> Seq<char> {
    match e {
        OperationalError::Port53Occupied => "/help/port-conflict"@,
        OperationalError::FeedStale => "/help/feed"@,
        OperationalError::DnsRestorePartial => "/help/uninstall"@,
        OperationalError::VpnDetected => "/help/vpn"@,
    }
}

/// The error whose code is `code`, if any.
pub open spec fn error_with_code(code: Seq<char>) -> Option<OperationalError> {
    if code == "E001"@ {
        Some(OperationalError::Port53Occupied)
    } else if code == "E002"@ {
        Some(OperationalError::FeedStale)
    } else if code == "E003"@ {
        Some(OperationalError::DnsRestorePartial)
    } else if code == "E004"@ {
        Some(OperationalError::VpnDetected)
    } else {
        None
    }
}

/// The one-line message: code, name, cause, fix and help link.
pub open spec fn message_of(e: OperationalError) -> Seq<char> {
    code_of(e) + " "@ + name_of(e) + ": "@ + cause_of(e) + " Fix: "@ + fix_of(e)
        + " See http://127.0.0.1"@ + doc_path_of(e)
}

impl OperationalError {
    /// Every operational error, in code order.
    pub const ALL: [OperationalError; 4] = [
        OperationalError::Port53Occupied,
        OperationalError::FeedStale,
        OperationalError::DnsRestorePartial,
        OperationalError::VpnDetected,
    ];

    /// Stable `Exxx` identifier shown to users and quoted in bug reports.
    pub fn code(self) -> (r: &'static str)
        ensures
            r@ == code_of(self),
    {
        match self {
            OperationalError::Port53Occupied => "E001",
            OperationalError::FeedStale => "E002",
            OperationalError::DnsRestorePartial => "E003",
            OperationalError::VpnDetected => "E004",
        }
    }

    /// SCREAMING_SNAKE machine name (log keys, tray tooltip ids).
    pub fn name(self) -> (r: &'static str)
        ensures
            r@ == name_of(self),
    {
        match self {
            OperationalError::Port53Occupied => "PORT_53_OCCUPIED",
            OperationalError::FeedStale => "FEED_STALE",
            OperationalError::DnsRestorePartial => "DNS_RESTORE_PARTIAL",
            OperationalError::VpnDetected => "VPN_DETECTED",
        }
    }

    /// One-sentence plain-language cause.
    pub fn cause(self) -> (r: &'static str)
        ensures
            r@ == cause_of(self),
    {
        match self {
            OperationalError::Port53Occupied => "Another program is already using UDP port 53, the DNS port Dropper needs to answer queries.",
            OperationalError::FeedStale => "The URLhaus blocklist has not refreshed within its freshness window, so newly listed threats may be missing.",
            OperationalError::DnsRestorePartial => "During uninstall, Dropper could not restore the original DNS settings on one or more network adapters (an adapter was changed or removed since install).",
            OperationalError::VpnDetected => "A VPN or alternate DNS is active and routing queries around Dropper's local resolver, so blocking may be silently bypassed.",
        }
    }

    /// One concrete corrective action the user can take.
    pub fn fix(self) -> (r: &'static str)
        ensures
            r@ == fix_of(self),
    {
        match self {
            OperationalError::Port53Occupied => "Stop the conflicting DNS service (often Internet Connection Sharing, another DNS filter, or a local resolver) and restart Dropper, or let Dropper use its fallback port.",
            OperationalError::FeedStale => "Check this machine's internet connection; Dropper keeps using the last good list and retries automatically.",
            OperationalError::DnsRestorePartial => "Open Network adapter settings and set DNS back to Automatic (DHCP) on the affected adapters.",
            OperationalError::VpnDetected => "Point the VPN at Dropper's resolver or enable split tunneling for DNS; otherwise expect reduced coverage while the VPN is on.",
        }
    }

    /// Block-page route (served on `127.0.0.1`) with the full explanation.
    pub fn doc_path(self) -> (r: &'static str)
        ensures
            r@ == doc_path_of(self),
    {
        match self {
            OperationalError::Port53Occupied => "/help/port-conflict",
            OperationalError::FeedStale => "/help/feed",
            OperationalError::DnsRestorePartial => "/help/uninstall",
            OperationalError::VpnDetected => "/help/vpn",
        }
    }

    /// Look an error up by its `Exxx` code; `None` for anything unknown.
    pub fn from_code(code: &str) -> (r: Option<OperationalError>)
        ensures
            r == error_with_code(code@),
    {
        proof {
            lemma_codes_known();
        }
        let all = OperationalError::ALL;
        let mut i: usize = 0;
        while i < 4
            invariant
                all == OperationalError::ALL,
                0 <= i <= 4,
                forall|k: int| 0 <= k < i ==> code_of(#[trigger] all[k]) != code@,
            decreases 4 - i,
        {
            let e = all[i];
            if same_text(e.code(), code) {
                return Some(e);
            }
            i = i + 1;
        }
        assert(code_of(all[0]) != code@ && code_of(all[1]) != code@ && code_of(all[2]) != code@
            && code_of(all[3]) != code@);
        None
    }

    /// The one-line message shown in dialogs and logs: code, name, cause,
    /// fix and the help link on the local block-page server.
    pub fn to_string(self) -> (r: String)
        ensures
            r@ == message_of(self),
    {
        let mut s = String::from_str(self.code());
        s.append(" ");
        s.append(self.name());
        s.append(": ");
        s.append(self.cause());
        s.append(" Fix: ");
        s.append(self.fix());
        s.append(" See http://127.0.0.1");
        s.append(self.doc_path());
        s
    }
}

proof fn lemma_codes_known()
    ensures
        "E001"@ =~= seq!['E', '0', '0', '1'],
        "E002"@ =~= seq!['E', '0', '0', '2'],
        "E003"@ =~= seq!['E', '0', '0', '3'],
        "E004"@ =~= seq!['E', '0', '0', '4'],
{
    reveal_strlit("E001");
    reveal_strlit("E002");
    reveal_strlit("E003");
    reveal_strlit("E004");
}

/// Law: looking an error up by its own code finds that error; so no two
/// errors share a code.
pub proof fn law_from_code_inverts_code(e: OperationalError)
    ensures
        error_with_code(code_of(e)) == Some(e),
{
    lemma_codes_known();
}

/// Law: the catalogue is complete and well-formed. Every code is `E`
/// followed by three digits, and the codes run `E001`..`E004` in the order
/// of `ALL`; every name, cause and fix is non-empty; every doc path is a
/// `/help/` route of the block-page server.
pub proof fn law_catalogue_is_well_formed(e: OperationalError)
    ensures
        code_of(e).len() == 4,
        code_of(e)[0] == 'E',
        forall|i: int| 1 <= i < 4 ==> '0' <= #[trigger] code_of(e)[i] <= '9',
        code_of(OperationalError::ALL[0]) == "E001"@,
        code_of(OperationalError::ALL[1]) == "E002"@,
        code_of(OperationalError::ALL[2]) == "E003"@,
        code_of(OperationalError::ALL[3]) == "E004"@,
        name_of(e).len() > 0,
        cause_of(e).len() > 0,
        fix_of(e).len() > 0,
        doc_path_of(e).len() > 6,
        doc_path_of(e).take(6) == "/help/"@,
{
    lemma_codes_known();
    reveal_strlit("PORT_53_OCCUPIED");
    reveal_strlit("FEED_STALE");
    reveal_strlit("DNS_RESTORE_PARTIAL");
    reveal_strlit("VPN_DETECTED");
    reveal_strlit("Another program is already using UDP port 53, the DNS port Dropper needs to answer queries.");
    reveal_strlit("The URLhaus blocklist has not refreshed within its freshness window, so newly listed threats may be missing.");
    reveal_strlit("During uninstall, Dropper could not restore the original DNS settings on one or more network adapters (an adapter was changed or removed since install).");
    reveal_strlit("A VPN or alternate DNS is active and routing queries around Dropper's local resolver, so blocking may be silently bypassed.");
    reveal_strlit("Stop the conflicting DNS service (often Internet Connection Sharing, another DNS filter, or a local resolver) and restart Dropper, or let Dropper use its fallback port.");
    reveal_strlit("Check this machine's internet connection; Dropper keeps using the last good list and retries automatically.");
    reveal_strlit("Open Network adapter settings and set DNS back to Automatic (DHCP) on the affected adapters.");
    reveal_strlit("Point the VPN at Dropper's resolver or enable split tunneling for DNS; otherwise expect reduced coverage while the VPN is on.");
    reveal_strlit("/help/port-conflict");
    reveal_strlit("/help/feed");
    reveal_strlit("/help/uninstall");
    reveal_strlit("/help/vpn");
    reveal_strlit("/help/");
    assert(doc_path_of(e).take(6) =~= "/help/"@);
}

} // verus!
