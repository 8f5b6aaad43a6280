//! Shared passive L2 listener for link-local discovery protocols.
//!
//! LLDP and CDP are both received from the selected datalink interface. One listener
//! per interface avoids duplicating sockets; this module tells frames apart.

use crate::discovery::cdp::{parse_cdp_frame, CdpInfo, CdpInfoView};
use crate::discovery::cdp;
use crate::discovery::lldp::{parse_lldp_frame, LldpInfo, LldpInfoView};
use crate::discovery::lldp;
use crate::same::holds;
use vstd::prelude::*;

verus! {

/// The protocols that are listened for.
#[derive(Clone, Copy, Debug, PartialEq, Eq, Structural)]
pub struct L2Protocols {
    pub lldp: bool,
    pub cdp: bool,
}

impl L2Protocols {
    /// Reports whether any protocol is listened for.
    pub fn any(self) -> (r: bool)
        ensures
            r == (self.lldp || self.cdp),
    {
        self.lldp || self.cdp
    }

    /// What the protocols are called.
    pub open spec fn label_spec(self) -> Seq<char> {
        if self.lldp && self.cdp {
            "LLDP/CDP"@
        } else if self.lldp {
            "LLDP"@
        } else if self.cdp {
            "CDP"@
        } else {
            "L2"@
        }
    }

    /// Names the protocols.
    pub fn label(self) -> (r: &'static str)
        ensures
            r@ == self.label_spec(),
    {
        match (self.lldp, self.cdp) {
            (true, true) => "LLDP/CDP",
            (true, false) => "LLDP",
            (false, true) => "CDP",
            (false, false) => "L2",
        }
    }
}

/// An advertisement of a neighbor.
#[derive(Debug, PartialEq, Eq)]
pub enum L2Advertisement {
    Lldp(LldpInfo),
    Cdp(CdpInfo),
}

/// The mathematical content of an [`L2Advertisement`].
pub enum L2AdvertisementView {
    Lldp(LldpInfoView),
    Cdp(CdpInfoView),
}

impl View for L2Advertisement {
    type V = L2AdvertisementView;

    open spec fn view(&self) -> L2AdvertisementView {
        match self {
            L2Advertisement::Lldp(info) => L2AdvertisementView::Lldp(info@),
            L2Advertisement::Cdp(info) => L2AdvertisementView::Cdp(info@),
        }
    }
}

impl DeepView for L2Advertisement {
    type V = L2AdvertisementView;

    open spec fn deep_view(&self) -> L2AdvertisementView {
        self@
    }
}

impl Clone for L2Advertisement {
    fn clone(&self) -> (r: Self)
        ensures
            r@ == self@,
    {
        match self {
            L2Advertisement::Lldp(info) => L2Advertisement::Lldp(info.clone()),
            L2Advertisement::Cdp(info) => L2Advertisement::Cdp(info.clone()),
        }
    }
}

/// The advertisements that a listener heard.
#[derive(Debug, PartialEq, Eq)]
pub struct L2Advertisements {
    pub lldp: Vec<LldpInfo>,
    pub cdp: Vec<CdpInfo>,
}

/// The mathematical content of a [`L2Advertisements`].
#[verifier::ext_equal]
pub struct L2AdvertisementsView {
    pub lldp: Seq<LldpInfoView>,
    pub cdp: Seq<CdpInfoView>,
}

impl View for L2Advertisements {
    type V = L2AdvertisementsView;

    open spec fn view(&self) -> L2AdvertisementsView {
        L2AdvertisementsView {
            lldp: self.lldp.deep_view(),
            cdp: self.cdp.deep_view(),
        }
    }
}

impl DeepView for L2Advertisements {
    type V = L2AdvertisementsView;

    open spec fn deep_view(&self) -> L2AdvertisementsView {
        self@
    }
}

impl Clone for L2Advertisements {
    fn clone(&self) -> (r: Self)
        ensures
            r@ == self@,
    {
        let r = L2Advertisements {
            lldp: self.lldp.clone(),
            cdp: self.cdp.clone(),
        };
        proof {
            assert(r.lldp.deep_view() =~= self.lldp.deep_view());
            assert(r.cdp.deep_view() =~= self.cdp.deep_view());
        }
        r
    }
}

impl Default for L2Advertisements {
    fn default() -> (r: Self)
        ensures
            r@ == (L2AdvertisementsView {
                lldp: seq![],
                cdp: seq![],
            }),
    {
        let r = L2Advertisements {
            lldp: Vec::new(),
            cdp: Vec::new(),
        };
        proof {
            assert(r.lldp.deep_view() =~= seq![]);
            assert(r.cdp.deep_view() =~= seq![]);
        }
        r
    }
}

/// A listener: what it listens for, what it heard, and by which keys it knows a
/// neighbor again.
pub struct L2Listener {
    pub protocols: L2Protocols,
    pub heard: L2Advertisements,
    pub lldp_keys: Vec<String>,
    pub cdp_keys: Vec<String>,
}

/// The mathematical content of an [`L2Listener`].
#[verifier::ext_equal]
pub struct L2ListenerView {
    pub protocols: L2Protocols,
    pub heard: L2AdvertisementsView,
    pub lldp_keys: Seq<Seq<char>>,
    pub cdp_keys: Seq<Seq<char>>,
}

impl View for L2Listener {
    type V = L2ListenerView;

    open spec fn view(&self) -> L2ListenerView {
        L2ListenerView {
            protocols: self.protocols,
            heard: self.heard@,
            lldp_keys: self.lldp_keys.deep_view(),
            cdp_keys: self.cdp_keys.deep_view(),
        }
    }
}

impl L2ListenerView {
    /// The advertisement of a frame that is listened for. LLDP goes first.
    pub open spec fn new_lldp(self, frame: Seq<u8>) -> Option<LldpInfoView> {
        if self.protocols.lldp {
            match lldp::lldp_frame_spec(frame) {
                Some(info) => if self.lldp_keys.contains(info.identity_key()) {
                    None
                } else {
                    Some(info)
                },
                None => None,
            }
        } else {
            None
        }
    }

    /// The CDP advertisement of a frame, where it is new.
    pub open spec fn new_cdp(self, frame: Seq<u8>) -> Option<CdpInfoView> {
        if self.protocols.cdp {
            match cdp::cdp_frame_spec(frame) {
                Some(info) => if self.cdp_keys.contains(info.identity_key()) {
                    None
                } else {
                    Some(info)
                },
                None => None,
            }
        } else {
            None
        }
    }

    /// What is new in a frame, and the listener after it. A neighbor that was heard
    /// before is not reported again.
    pub open spec fn hear(self, frame: Seq<u8>) -> (Option<L2AdvertisementView>, L2ListenerView) {
        match self.new_lldp(frame) {
            Some(info) => (
                Some(L2AdvertisementView::Lldp(info)),
                L2ListenerView {
                    heard: L2AdvertisementsView { lldp: self.heard.lldp.push(info), ..self.heard },
                    lldp_keys: self.lldp_keys.push(info.identity_key()),
                    ..self
                },
            ),
            None => match self.new_cdp(frame) {
                Some(info) => (
                    Some(L2AdvertisementView::Cdp(info)),
                    L2ListenerView {
                        heard: L2AdvertisementsView { cdp: self.heard.cdp.push(info), ..self.heard },
                        cdp_keys: self.cdp_keys.push(info.identity_key()),
                        ..self
                    },
                ),
                None => (None, self),
            },
        }
    }
}

impl L2Listener {
    /// A listener that has heard nothing.
    pub fn new(protocols: L2Protocols) -> (r: Self)
        ensures
            r@ == (L2ListenerView {
                protocols,
                heard: L2AdvertisementsView { lldp: seq![], cdp: seq![] },
                lldp_keys: seq![],
                cdp_keys: seq![],
            }),
    {
        let r = L2Listener {
            protocols,
            heard: L2Advertisements::default(),
            lldp_keys: Vec::new(),
            cdp_keys: Vec::new(),
        };
        proof {
            assert(r.lldp_keys.deep_view() =~= seq![]);
            assert(r.cdp_keys.deep_view() =~= seq![]);
        }
        r
    }

    /// Takes in a frame, and gives back the advertisement where it is new.
    pub fn receive(&mut self, frame: &[u8]) -> (r: Option<L2Advertisement>)
        ensures
            (r.deep_view(), final(self)@) == old(self)@.hear(frame@),
    {
        if self.protocols.lldp {
            if let Some(info) = parse_lldp_frame(frame) {
                let key = info.identity_key();
                if !holds(&self.lldp_keys, &key) {
                    let ghost keys = self.lldp_keys.deep_view();
                    let ghost heard = self.heard.lldp.deep_view();
                    let ghost k = key@;
                    self.lldp_keys.push(key);
                    self.heard.lldp.push(info.clone());
                    proof {
                        assert(self.lldp_keys.deep_view() =~= keys.push(k));
                        assert(self.heard.lldp.deep_view() =~= heard.push(info@));
                    }
                    return Some(L2Advertisement::Lldp(info));
                }
            }
        }
        if self.protocols.cdp {
            if let Some(info) = parse_cdp_frame(frame) {
                let key = info.identity_key();
                if !holds(&self.cdp_keys, &key) {
                    let ghost keys = self.cdp_keys.deep_view();
                    let ghost heard = self.heard.cdp.deep_view();
                    let ghost k = key@;
                    self.cdp_keys.push(key);
                    self.heard.cdp.push(info.clone());
                    proof {
                        assert(self.cdp_keys.deep_view() =~= keys.push(k));
                        assert(self.heard.cdp.deep_view() =~= heard.push(info@));
                    }
                    return Some(L2Advertisement::Cdp(info));
                }
            }
        }
        None
    }

    /// Takes in a frame, and gives back its advertisement whether or not it was heard
    /// before. A listener that runs across scans reports repetitions, because they
    /// refresh when a neighbor was last seen.
    pub fn repeat(protocols: L2Protocols, frame: &[u8]) -> (r: Option<L2Advertisement>)
        ensures
            r.deep_view() == (if protocols.lldp && lldp::lldp_frame_spec(frame@) is Some {
                Some(L2AdvertisementView::Lldp(lldp::lldp_frame_spec(frame@)->0))
            } else if protocols.cdp && cdp::cdp_frame_spec(frame@) is Some {
                Some(L2AdvertisementView::Cdp(cdp::cdp_frame_spec(frame@)->0))
            } else {
                None
            }),
    {
        if protocols.lldp {
            if let Some(info) = parse_lldp_frame(frame) {
                return Some(L2Advertisement::Lldp(info));
            }
        }
        if protocols.cdp {
            if let Some(info) = parse_cdp_frame(frame) {
                return Some(L2Advertisement::Cdp(info));
            }
        }
        None
    }
}

/// A frame that was just reported is not reported a second time.
pub proof fn law_neighbor_is_reported_once(listener: L2ListenerView, frame: Seq<u8>)
    ensures
        ({
            let (first, after) = listener.hear(frame);
            let (second, _) = after.hear(frame);
            first is Some ==> second is None
        }),
{
    let (first, after) = listener.hear(frame);
    match first {
        Some(L2AdvertisementView::Lldp(info)) => {
            let n = listener.lldp_keys.len();
            assert(after.lldp_keys[n as int] == info.identity_key());
            assert(after.lldp_keys.contains(info.identity_key()));
        },
        Some(L2AdvertisementView::Cdp(info)) => {
            let n = listener.cdp_keys.len();
            assert(after.cdp_keys[n as int] == info.identity_key());
            assert(after.cdp_keys.contains(info.identity_key()));
        },
        None => {},
    }
}

} // verus!
