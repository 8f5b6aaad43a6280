//! What the built-in rules conclude.

use crate::identity_rules::{IdentityRuleView, ObservationView, RuleDbView};
use crate::identity_rules;
use crate::model::{Confidence, DeviceView};
use crate::model;
use crate::text::laws;
use crate::text;
use vstd::prelude::*;

verus! {

/// A rule concludes from one condition: the source and the key of what is observed, and a
/// text or one of several texts in it.
pub open spec fn concludes_from(
    rule: IdentityRuleView,
    source: Option<Seq<char>>,
    key: Seq<char>,
    word: Option<Seq<char>>,
    words: Seq<Seq<char>>,
) -> bool {
    &&& rule.conditions.len() == 1
    &&& rule.conditions[0].source == source
    &&& rule.conditions[0].key == key
    &&& rule.conditions[0].equals is None
    &&& rule.conditions[0].contains == word
    &&& rule.conditions[0].any_of == words
    &&& rule.conditions[0].confidence_min is None
}

/// A rule concludes who made a device, what runs on it, and what it is, with a confidence;
/// never its model.
pub open spec fn concludes(
    rule: IdentityRuleView,
    make: Option<Seq<char>>,
    os: Option<Seq<char>>,
    device_type: Option<Seq<char>>,
    confidence: Confidence,
) -> bool {
    &&& rule.set.make == make
    &&& rule.set.model is None
    &&& rule.set.os == os
    &&& rule.set.device_type == device_type
    &&& rule.confidence == confidence
}

/// The built-in rules are these, by what they look at and what they conclude.
pub proof fn law_builtin_rules_conclude()
    ensures
        ({
            let r = identity_rules::builtin_rules();
            let none = Seq::<Seq<char>>::empty();
            &&& r.len() == 17
            &&& r[0].id == "apple-mac-model"@ && r[0].priority == 100
            &&& concludes_from(r[0], None, "model"@, None, seq!["MacBook"@, "Mac mini"@, "MacBookPro"@, "iMac"@, "Mac Studio"@])
            &&& concludes(r[0], Some("Apple"@), Some("macOS"@), Some("computer"@), 92)
            &&& r[1].id == "apple-tv"@ && r[1].priority == 100
            &&& concludes_from(r[1], None, "model"@, None, seq!["AppleTV"@, "Apple TV"@])
            &&& concludes(r[1], Some("Apple"@), Some("tvOS"@), Some("media-streamer"@), 92)
            &&& r[2].id == "airplay-device"@ && r[2].priority == 90
            &&& concludes_from(r[2], None, "service"@, None, seq!["airplay"@, "raop"@, "airdrop"@])
            &&& concludes(r[2], Some("Apple"@), None, Some("media-device"@), 78)
            &&& r[3].id == "bravia-tv"@ && r[3].priority == 95
            &&& concludes_from(r[3], None, "model"@, Some("BRAVIA"@), none)
            &&& concludes(r[3], Some("Sony"@), Some("Android TV"@), Some("tv"@), 90)
            &&& r[4].id == "dial-tv-or-cast"@ && r[4].priority == 80
            &&& concludes_from(r[4], None, "service"@, Some("dial"@), none)
            &&& concludes(r[4], None, None, Some("media-streamer"@), 78)
            &&& r[5].id == "google-cast"@ && r[5].priority == 90
            &&& concludes_from(r[5], None, "service"@, None, seq!["googlecast"@, "chromecast"@, "cast"@])
            &&& concludes(r[5], Some("Google"@), None, Some("media-streamer"@), 86)
            &&& r[6].id == "nintendo-console"@ && r[6].priority == 80
            &&& concludes_from(r[6], None, "vendor"@, Some("Nintendo"@), none)
            &&& concludes(r[6], Some("Nintendo"@), None, Some("game-console"@), 75)
            &&& r[7].id == "amazon-device"@ && r[7].priority == 70
            &&& concludes_from(r[7], None, "vendor"@, Some("Amazon"@), none)
            &&& concludes(r[7], Some("Amazon"@), None, Some("smart-home"@), 68)
            &&& r[8].id == "printer-ipp-or-raw"@ && r[8].priority == 85
            &&& concludes_from(r[8], None, "port"@, None, seq!["631"@, "9100"@])
            &&& concludes(r[8], None, None, Some("printer"@), 78)
            &&& r[9].id == "synology-nas"@ && r[9].priority == 95
            &&& concludes_from(r[9], None, "vendor"@, Some("Synology"@), none)
            &&& concludes(r[9], Some("Synology"@), Some("DSM"@), Some("nas"@), 90)
            &&& r[10].id == "qnap-nas"@ && r[10].priority == 95
            &&& concludes_from(r[10], None, "vendor"@, Some("QNAP"@), none)
            &&& concludes(r[10], Some("QNAP"@), Some("QTS"@), Some("nas"@), 90)
            &&& r[11].id == "openwrt-http"@ && r[11].priority == 95
            &&& concludes_from(r[11], None, "http_header_server"@, None, seq!["OpenWrt"@, "uhttpd"@])
            &&& concludes(r[11], None, Some("OpenWrt"@), Some("router"@), 88)
            &&& r[12].id == "dropbear-embedded"@ && r[12].priority == 70
            &&& concludes_from(r[12], None, "ssh_banner"@, Some("dropbear"@), none)
            &&& concludes(r[12], None, Some("Linux/embedded"@), None, 66)
            &&& r[13].id == "dhcp-msft-windows"@ && r[13].priority == 80
            &&& concludes_from(r[13], Some("dhcp"@), "vendor_class"@, Some("MSFT"@), none)
            &&& concludes(r[13], None, Some("Windows"@), Some("computer"@), 72)
            &&& r[14].id == "dhcp-android"@ && r[14].priority == 80
            &&& concludes_from(r[14], Some("dhcp"@), "vendor_class"@, Some("android"@), none)
            &&& concludes(r[14], None, Some("Android"@), None, 72)
            &&& r[15].id == "samba-server"@ && r[15].priority == 70
            &&& concludes_from(r[15], None, "smb_native_lanman"@, Some("Samba"@), none)
            &&& concludes(r[15], None, Some("Unix-like"@), Some("file-server"@), 68)
            &&& r[16].id == "windows-smb"@ && r[16].priority == 70
            &&& concludes_from(r[16], None, "smb_native_os"@, Some("Windows"@), none)
            &&& concludes(r[16], None, Some("Windows"@), Some("computer"@), 72)
        }),
{
    reveal(identity_rules::builtin_rules);
}

/// A device with an open printer port has a type that is at least as sure as that of a
/// printer.
pub proof fn law_printer_ports_are_printers(d: DeviceView, i: int)
    requires
        0 <= i < d.services.len(),
        d.services[i].port == Some(631u16) || d.services[i].port == Some(9100u16),
    ensures
        ({
            let db = RuleDbView { rules: identity_rules::builtin_rules() };
            let after = identity_rules::identity_rules_spec(d, db);
            after.device_type is Some && after.device_type->0.confidence >= 78
        }),
{
    let db = RuleDbView { rules: identity_rules::builtin_rules() };
    law_builtin_rules_conclude();
    let rule = db.rules[8];
    lemma_printer(d, i);
    identity_rules::law_rules_that_are_called_for_conclude(d, db, 8);
    assert(!model::blank("printer"@)) by {
        reveal_strlit("printer");
        assert("printer"@[0] == 'p');
        laws::lemma_trim_start(seq![], "printer"@);
        assert(text::trim_start_spec("printer"@) == "printer"@);
        assert("printer"@.last() == 'r');
    }
}

/// A printer port calls for the printer rule.
proof fn lemma_printer(d: DeviceView, i: int)
    requires
        0 <= i < d.services.len(),
        d.services[i].port == Some(631u16) || d.services[i].port == Some(9100u16),
    ensures
        identity_rules::called_for(identity_rules::builtin_rules()[8], d),
{
    law_builtin_rules_conclude();
    let rule = identity_rules::builtin_rules()[8];
    let port = d.services[i].port->0;
    let o = ObservationView {
        source: d.services[i].source,
        key: "port"@,
        value: text::decimal_spec(port as nat),
        confidence: d.services[i].confidence,
    };
    let m = rule.conditions[0];
    lemma_port_text(port);
    let none = Seq::<char>::empty();
    let low = text::lower_spec(o.value);
    laws::law_texts_contain_their_parts(none, low, none);
    assert(none + low + none =~= low);
    let k = if port == 631 {
        0
    } else {
        1int
    };
    assert(m.any_of[k] == o.value);
    assert(m.met_by(o));
    assert(identity_rules::comes_from(o, d));
    assert(identity_rules::meets(m, d));
}

/// The texts of the printer ports.
proof fn lemma_port_text(port: u16)
    requires
        port == 631 || port == 9100,
    ensures
        port == 631 ==> text::decimal_spec(port as nat) == "631"@,
        port == 9100 ==> text::decimal_spec(port as nat) == "9100"@,
        !model::blank(text::decimal_spec(port as nat)),
{
    let s = text::decimal_spec(port as nat);
    reveal_strlit("631");
    reveal_strlit("9100");
    reveal_with_fuel(text::decimal_spec, 5);
    if port == 631 {
        assert(s =~= "631"@);
    } else {
        assert(s =~= "9100"@);
    }
    assert(text::trim_spec(s) == s);
}

} // verus!
