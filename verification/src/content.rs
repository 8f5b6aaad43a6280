//! What records hold, field by field.
//!
//! Contracts speak of the mathematical content of a record. Here it is said, for each
//! record, that every field of the content is the field of the record with that name.

use crate::cli::ScanArgs;
use crate::dhcp::{DhcpLease, LeaseFile};
use crate::discovery::ArpHit;
use crate::discovery::cdp::CdpInfo;
use crate::discovery::lldp::LldpInfo;
use crate::enrich::mdns::{MdnsInfo, MdnsService};
use crate::enrich::netbios::NetbiosResponse;
use crate::model::{Device, Evidence, Guess, NameEvidence, ScanResult, ServiceEvidence};
use crate::net::{HardwareAddress, InterfaceInfo, RawInterface};
use crate::output::live::table::{LiveRow, LiveTable};
use crate::probes::deep::{FaviconFingerprint, HttpHeader, PortProbe, TlsCertificate, WebProbe};
use crate::probes::smb::{NtlmHostInfo, SmbInfo};
use crate::probes::snmp::SnmpInfo;
use crate::probes::upnp::{UpnpDescription, UpnpInfo, UrlParts};
use crate::scanner::multi::MultiScan;
use crate::scanner::passive::{PassiveInterfaceState, PassiveObservation};
use crate::scanner::types::ScanConfig;
use crate::text_map::{TextEntry, TextMap};
use vstd::prelude::*;

verus! {

/// The content of a device.
pub proof fn law_device_content(v: Device)
    ensures
        v@.interface == v.interface.deep_view(),
        v@.ip == v.ip,
        v@.mac == v.mac.deep_view(),
        v@.vendor == v.vendor.deep_view(),
        v@.hostname == v.hostname.deep_view(),
        v@.names == v.names.deep_view(),
        v@.make == v.make.deep_view(),
        v@.model == v.model.deep_view(),
        v@.os == v.os.deep_view(),
        v@.device_type == v.device_type.deep_view(),
        v@.services == v.services.deep_view(),
        v@.evidence == v.evidence.deep_view(),
        v@.first_seen == v.first_seen,
        v@.last_seen == v.last_seen,
{
}

/// The content of a name.
pub proof fn law_name_evidence_content(v: NameEvidence)
    ensures
        v@.name == v.name@,
        v@.source == v.source@,
        v@.confidence == v.confidence,
{
}

/// The content of a guess.
pub proof fn law_guess_content(v: Guess)
    ensures
        v@.value == v.value@,
        v@.source == v.source@,
        v@.confidence == v.confidence,
{
}

/// The content of a service.
pub proof fn law_service_evidence_content(v: ServiceEvidence)
    ensures
        v@.name == v.name@,
        v@.source == v.source@,
        v@.port == v.port,
        v@.confidence == v.confidence,
{
}

/// The content of a fact.
pub proof fn law_evidence_content(v: Evidence)
    ensures
        v@.source == v.source@,
        v@.key == v.key@,
        v@.value == v.value@,
        v@.confidence == v.confidence,
{
}

/// The content of a scan result.
pub proof fn law_scan_result_content(v: ScanResult)
    ensures
        v@.target == v.target@,
        v@.interface == v.interface@,
        v@.scanned_at == v.scanned_at,
        v@.devices == v.devices.deep_view(),
        v@.warnings == v.warnings.deep_view(),
{
}

/// The content of an LLDP advertisement.
pub proof fn law_lldp_info_content(v: LldpInfo)
    ensures
        v@.source_mac == v.source_mac@,
        v@.chassis_id == v.chassis_id.deep_view(),
        v@.chassis_id_subtype == v.chassis_id_subtype.deep_view(),
        v@.chassis_mac == v.chassis_mac.deep_view(),
        v@.port_id == v.port_id.deep_view(),
        v@.port_id_subtype == v.port_id_subtype.deep_view(),
        v@.ttl == v.ttl,
        v@.port_description == v.port_description.deep_view(),
        v@.system_name == v.system_name.deep_view(),
        v@.system_description == v.system_description.deep_view(),
        v@.system_capabilities == v.system_capabilities.deep_view(),
        v@.enabled_capabilities == v.enabled_capabilities.deep_view(),
        v@.management_addresses == v.management_addresses@,
{
}

/// The content of a CDP advertisement.
pub proof fn law_cdp_info_content(v: CdpInfo)
    ensures
        v@.source_mac == v.source_mac@,
        v@.version == v.version,
        v@.ttl == v.ttl,
        v@.device_id == v.device_id.deep_view(),
        v@.addresses == v.addresses@,
        v@.port_id == v.port_id.deep_view(),
        v@.capabilities == v.capabilities.deep_view(),
        v@.software_version == v.software_version.deep_view(),
        v@.platform == v.platform.deep_view(),
        v@.native_vlan == v.native_vlan,
        v@.duplex == v.duplex.deep_view(),
        v@.management_addresses == v.management_addresses@,
{
}

/// The content of a neighbor.
pub proof fn law_arp_hit_content(v: ArpHit)
    ensures
        v@.ip == v.ip,
        v@.mac == v.mac@,
        v@.interface == v.interface.deep_view(),
{
}

/// The content of a system group.
pub proof fn law_snmp_info_content(v: SnmpInfo)
    ensures
        v@.sys_descr == v.sys_descr.deep_view(),
        v@.sys_object_id == v.sys_object_id.deep_view(),
        v@.sys_contact == v.sys_contact.deep_view(),
        v@.sys_name == v.sys_name.deep_view(),
        v@.sys_location == v.sys_location.deep_view(),
        v@.sys_services == v.sys_services,
{
}

/// The content of an SMB server.
pub proof fn law_smb_info_content(v: SmbInfo)
    ensures
        v@.dialect == v.dialect.deep_view(),
        v@.signing_required == v.signing_required,
        v@.server_guid == v.server_guid.deep_view(),
        v@.native_os == v.native_os.deep_view(),
        v@.native_lanman == v.native_lanman.deep_view(),
        v@.netbios_computer_name == v.netbios_computer_name.deep_view(),
        v@.dns_computer_name == v.dns_computer_name.deep_view(),
{
}

/// The content of a challenge.
pub proof fn law_ntlm_host_info_content(v: NtlmHostInfo)
    ensures
        v@.target_name == v.target_name.deep_view(),
        v@.netbios_computer_name == v.netbios_computer_name.deep_view(),
        v@.netbios_domain_name == v.netbios_domain_name.deep_view(),
        v@.dns_computer_name == v.dns_computer_name.deep_view(),
        v@.dns_domain_name == v.dns_domain_name.deep_view(),
{
}

/// The content of a UPnP device.
pub proof fn law_upnp_info_content(v: UpnpInfo)
    ensures
        v@.names == v.names.deep_view(),
        v@.manufacturer == v.manufacturer.deep_view(),
        v@.model == v.model.deep_view(),
        v@.device_type == v.device_type.deep_view(),
        v@.server == v.server.deep_view(),
        v@.location == v.location.deep_view(),
        v@.services == v.services.deep_view(),
        v@.usns == v.usns.deep_view(),
{
}

/// The content of a device description.
pub proof fn law_upnp_description_content(v: UpnpDescription)
    ensures
        v@.friendly_name == v.friendly_name.deep_view(),
        v@.manufacturer == v.manufacturer.deep_view(),
        v@.model_name == v.model_name.deep_view(),
        v@.model_description == v.model_description.deep_view(),
        v@.device_type == v.device_type.deep_view(),
        v@.services == v.services.deep_view(),
{
}

/// The content of a URL.
pub proof fn law_url_parts_content(v: UrlParts)
    ensures
        v@.scheme == v.scheme@,
        v@.username == v.username@,
        v@.has_password == v.has_password,
        v@.host == v.host.deep_view(),
{
}

/// The content of a header.
pub proof fn law_http_header_content(v: HttpHeader)
    ensures
        v@.name == v.name@,
        v@.value == v.value@,
{
}

/// The content of a certificate.
pub proof fn law_tls_certificate_content(v: TlsCertificate)
    ensures
        v@.sha256 == v.sha256@,
        v@.subject == v.subject.deep_view(),
        v@.issuer == v.issuer.deep_view(),
        v@.not_before == v.not_before.deep_view(),
        v@.not_after == v.not_after.deep_view(),
{
}

/// The content of a port.
pub proof fn law_port_probe_content(v: PortProbe)
    ensures
        v@.port == v.port,
        v@.service == v.service@,
        v@.banner == v.banner.deep_view(),
        v@.http_headers == v.http_headers.deep_view(),
        v@.favicon == v.favicon.deep_view(),
        v@.tls == v.tls.deep_view(),
{
}

/// The content of an icon.
pub proof fn law_favicon_fingerprint_content(v: FaviconFingerprint)
    ensures
        v@.url == v.url@,
        v@.sha256 == v.sha256@,
        v@.bytes == v.bytes,
{
}

/// The content of a web server.
pub proof fn law_web_probe_content(v: WebProbe)
    ensures
        v@.banner == v.banner.deep_view(),
        v@.headers == v.headers.deep_view(),
        v@.favicon == v.favicon.deep_view(),
{
}

/// The content of a mDNS host.
pub proof fn law_mdns_info_content(v: MdnsInfo)
    ensures
        v@.names == v.names.deep_view(),
        v@.os == v.os.deep_view(),
        v@.model == v.model.deep_view(),
        v@.services == v.services.deep_view(),
{
}

/// The content of a mDNS service.
pub proof fn law_mdns_service_content(v: MdnsService)
    ensures
        v@.name == v.name@,
        v@.port == v.port,
{
}

/// The content of a node status answer.
pub proof fn law_netbios_response_content(v: NetbiosResponse)
    ensures
        v@.transaction_id == v.transaction_id,
        v@.names == v.names.deep_view(),
{
}

/// The content of a lease.
pub proof fn law_dhcp_lease_content(v: DhcpLease)
    ensures
        v@.ip == v.ip,
        v@.mac == v.mac.deep_view(),
        v@.hostname == v.hostname.deep_view(),
        v@.client_id == v.client_id.deep_view(),
        v@.vendor_class == v.vendor_class.deep_view(),
        v@.expires_at == v.expires_at,
        v@.source == v.source.deep_view(),
{
}

/// The content of a lease file.
pub proof fn law_lease_file_content(v: LeaseFile)
    ensures
        v@.path == v.path@,
        v@.text == v.text@,
{
}

/// The content of an interface.
pub proof fn law_interface_info_content(v: InterfaceInfo)
    ensures
        v@.name == v.name@,
        v@.ip == v.ip,
        v@.netmask == v.netmask,
        v@.prefix == v.prefix,
        v@.network == v.network,
        v@.mac == v.mac.deep_view(),
{
}

/// The content of a listed interface.
pub proof fn law_raw_interface_content(v: RawInterface)
    ensures
        v@.name == v.name@,
        v@.ip == v.ip,
        v@.netmask == v.netmask,
        v@.loopback == v.loopback,
{
}

/// The content of a hardware address.
pub proof fn law_hardware_address_content(v: HardwareAddress)
    ensures
        v@.name == v.name@,
        v@.mac == v.mac.deep_view(),
{
}

/// The content of a command line.
pub proof fn law_scan_args_content(v: ScanArgs)
    ensures
        v@.ranges == v.ranges.deep_view(),
        v@.profile == v.profile,
        v@.scan_interval_ms == v.scan_interval_ms,
        v@.timeout_ms == v.timeout_ms,
        v@.concurrency == v.concurrency,
        v@.format == v.format,
        v@.live == v.live,
        v@.mask_mac == v.mask_mac,
        v@.fingerprints == v.fingerprints@,
        v@.dhcp_leases == v.dhcp_leases.deep_view(),
        v@.snmp_community == v.snmp_community@,
        v@.interfaces == v.interfaces.deep_view(),
{
}

/// The content of a configuration.
pub proof fn law_scan_config_content(v: ScanConfig)
    ensures
        v@.target == v.target.deep_view(),
        v@.iface == v.iface.deep_view(),
        v@.profile == v.profile,
        v@.timeout == v.timeout,
        v@.concurrency == v.concurrency,
        v@.oui == v.oui,
        v@.rdns == v.rdns,
        v@.mdns == v.mdns,
        v@.netbios == v.netbios,
        v@.upnp == v.upnp,
        v@.deep == v.deep,
        v@.ssh == v.ssh,
        v@.http == v.http,
        v@.tls == v.tls,
        v@.smb == v.smb,
        v@.snmp == v.snmp,
        v@.snmp_community == v.snmp_community@,
        v@.lldp == v.lldp,
        v@.cdp == v.cdp,
        v@.dhcp == v.dhcp,
        v@.dhcp_paths == v.dhcp_paths.deep_view(),
        v@.cache_enabled == v.cache_enabled,
        v@.cache_path == v.cache_path@,
        v@.oui_path == v.oui_path@,
{
}

/// The content of a heard advertisement.
pub proof fn law_passive_observation_content(v: PassiveObservation)
    ensures
        v@.key == v.key@,
        v@.received_at == v.received_at,
        v@.ttl == v.ttl,
        v@.candidate_ips == v.candidate_ips@,
        v@.candidate_macs == v.candidate_macs.deep_view(),
        v@.advertisement == v.advertisement@,
{
}

/// The content of a watched interface.
pub proof fn law_passive_interface_state_content(v: PassiveInterfaceState)
    ensures
        v@.interface == v.interface@,
        v@.targets == v.targets@,
        v@.oui == v.oui,
        v@.devices == v.devices.deep_view(),
        v@.pending_observations == v.pending_observations.deep_view(),
{
}

/// The content of a row.
pub proof fn law_live_row_content(v: LiveRow)
    ensures
        v@.key == v.key@,
        v@.device == v.device@,
        v@.round == v.round,
{
}

/// The content of a live view.
pub proof fn law_live_table_content(v: LiveTable)
    ensures
        v@.target == v.target.deep_view(),
        v@.interface == v.interface.deep_view(),
        v@.profile == v.profile.deep_view(),
        v@.phase == v.phase@,
        v@.rows == v.rows.deep_view(),
        v@.current_round == v.current_round,
        v@.warnings == v.warnings.deep_view(),
        v@.logs == v.logs.deep_view(),
        v@.finished == v.finished,
        v@.paused == v.paused,
        v@.selected == v.selected,
        v@.scroll == v.scroll,
        v@.search_query == v.search_query@,
        v@.search_editing == v.search_editing,
        v@.options == v.options,
        v@.interface_panel == v.interface_panel@,
{
}

/// The content of a map entry.
pub proof fn law_text_entry_content(v: TextEntry)
    ensures
        v@.key == v.key@,
        v@.value == v.value@,
{
}

/// The content of a map.
pub proof fn law_text_map_content(v: TextMap)
    ensures
        v@.entries == v.entries.deep_view(),
{
}

/// The content of a scan of several interfaces.
pub proof fn law_multi_scan_content(v: MultiScan)
    ensures
        v@.rules == v.rules@,
        v@.cache_enabled == v.cache_enabled,
        v@.scanned_at == v.scanned_at,
        v@.emit_finished == v.emit_finished,
        v@.targets == v.targets.deep_view(),
        v@.interfaces == v.interfaces.deep_view(),
        v@.warnings == v.warnings.deep_view(),
        v@.devices == v.devices.deep_view(),
{
}

} // verus!
