//! The description that the proxy gives of itself at `/proxy`.

use vstd::prelude::*;

verus! {

/// How the proxy is used.
#[derive(Debug)]
pub struct UsageInfo {
    pub note: String,
    pub post: String,
    pub get: String,
}

/// The build the proxy runs.
#[derive(Debug)]
pub struct Build {
    pub version: String,
    pub timestamp: String,
    pub target: String,
    pub rustc: String,
}

/// What the proxy is and how to use it.
#[derive(Debug)]
pub struct Info {
    pub note: String,
    pub usage_info: UsageInfo,
    pub health_check: String,
    pub github: String,
    pub license: String,
    pub build: Build,
}

/// The reply at `/proxy`.
#[derive(Debug)]
pub struct Response {
    pub success: bool,
    pub info: Info,
}

/// The reply at `/proxy`, for a build with the given version, build time,
/// target and compiler.
pub fn proxy_response(version: String, timestamp: String, target: String, rustc: String) -> (r: Response)
    ensures
        r.success,
        r.info.note@ == "Atomicals ElectrumX Digital Object Proxy Online"@,
        r.info.usage_info.note@
            == "The service offers both POST and GET requests for proxying requests to ElectrumX. To handle larger broadcast transaction payloads use the POST method instead of GET."@,
        r.info.usage_info.post@
            == "POST /proxy/:method with string encoded array in the field \"params\" in the request body."@,
        r.info.usage_info.get@
            == "GET /proxy/:method?params=[\"value1\"] with string encoded array in the query argument \"params\" in the URL."@,
        r.info.health_check@ == "GET /proxy/health"@,
        r.info.github@ == "https://github.com/WizzWallet/elex-proxy"@,
        r.info.license@ == "MIT"@,
        r.info.build.version@ == version@,
        r.info.build.timestamp@ == timestamp@,
        r.info.build.target@ == target@,
        r.info.build.rustc@ == rustc@,
{
    Response {
        success: true,
        info: Info {
            note: "Atomicals ElectrumX Digital Object Proxy Online".to_owned(),
            usage_info: UsageInfo {
                note: "The service offers both POST and GET requests for proxying requests to ElectrumX. To handle larger broadcast transaction payloads use the POST method instead of GET.".to_owned(),
                post: "POST /proxy/:method with string encoded array in the field \"params\" in the request body.".to_owned(),
                get: "GET /proxy/:method?params=[\"value1\"] with string encoded array in the query argument \"params\" in the URL.".to_owned(),
            },
            health_check: "GET /proxy/health".to_owned(),
            github: "https://github.com/WizzWallet/elex-proxy".to_owned(),
            license: "MIT".to_owned(),
            build: Build { version, timestamp, target, rustc },
        },
    }
}

} // verus!
