//! The computed payloads of the bootstrap routes: the installer script that
//! fetches the client assets from the requesting host, and the LZ4-wrapped
//! form of an asset.

use vstd::prelude::*;
use vstd::utf8::encode_utf8;

use crate::deps::{b85_encode, base85_of, lz4_compress, lz4_of};

verus! {

/// The installer script for the given host: it deletes any stale client
/// assets, then fetches each asset from the host. The unminified variant
/// fetches the `base-` routes instead.
pub open spec fn bootstrap_spec(host: Seq<char>, minified: bool) -> Seq<char> {
    if minified {
        "local function del(p) if fs.exists(p) then fs.delete(p) end end del(\"/sync.lua\") del(\"/cc-sync/libdeflate.lua\") del(\"/cc-sync/base85.lua\") del(\"/cc-sync/llz4.lua\") shell.run(\"wget http://"@
            + host + "/sync.lua\")\nshell.run(\"wget http://"@ + host
            + "/libdeflate.lua cc-sync/libdeflate.lua\")\nshell.run(\"wget http://"@ + host
            + "/base85.lua cc-sync/base85.lua\")\nshell.run(\"wget http://"@ + host
            + "/lz4.lua cc-sync/llz4.lua\")"@
    } else {
        "local function del(p) if fs.exists(p) then fs.delete(p) end end del(\"/sync.lua\") del(\"/cc-sync/libdeflate.lua\") del(\"/cc-sync/base85.lua\") del(\"/cc-sync/llz4.lua\") shell.run(\"wget http://"@
            + host + "/base-sync.lua sync.lua\")\nshell.run(\"wget http://"@ + host
            + "/base-libdeflate.lua cc-sync/libdeflate.lua\")\nshell.run(\"wget http://"@ + host
            + "/base-base85.lua cc-sync/base85.lua\")\nshell.run(\"wget http://"@ + host
            + "/base-lz4.lua cc-sync/llz4.lua\")"@
    }
}

/// Builds the installer script for the given host.
pub fn bootstrap_script(host: &str, minified: bool) -> (r: String)
    ensures
        r@ == bootstrap_spec(host@, minified),
{
    let mut out = String::from_str(
        "local function del(p) if fs.exists(p) then fs.delete(p) end end del(\"/sync.lua\") del(\"/cc-sync/libdeflate.lua\") del(\"/cc-sync/base85.lua\") del(\"/cc-sync/llz4.lua\") shell.run(\"wget http://",
    );
    out.append(host);
    if minified {
        out.append("/sync.lua\")\nshell.run(\"wget http://");
        out.append(host);
        out.append("/libdeflate.lua cc-sync/libdeflate.lua\")\nshell.run(\"wget http://");
        out.append(host);
        out.append("/base85.lua cc-sync/base85.lua\")\nshell.run(\"wget http://");
        out.append(host);
        out.append("/lz4.lua cc-sync/llz4.lua\")");
    } else {
        out.append("/base-sync.lua sync.lua\")\nshell.run(\"wget http://");
        out.append(host);
        out.append("/base-libdeflate.lua cc-sync/libdeflate.lua\")\nshell.run(\"wget http://");
        out.append(host);
        out.append("/base-base85.lua cc-sync/base85.lua\")\nshell.run(\"wget http://");
        out.append(host);
        out.append("/base-lz4.lua cc-sync/llz4.lua\")");
    }
    assert(out@ =~= bootstrap_spec(host@, minified));
    out
}

/// The one-line snippet that LZ4-decompresses and loads a wrapped asset.
pub open spec fn lz4_asset_spec(content: Seq<char>) -> Seq<char> {
    "return load(require(\"/cc-sync/llz4\").decompress(select(2, require(\"/cc-sync/base85\").decode(\""@
        + base85_of(lz4_of(encode_utf8(content))) + "\"))), \"crimes\", \"t\", _G)()"@
}

/// Wraps an asset's text as an LZ4-compressed, base85-encoded loader
/// snippet.
pub fn lz4_asset_wrap(content: &str) -> (r: String)
    ensures
        r@ == lz4_asset_spec(content@),
{
    let compressed = lz4_compress(content.as_bytes());
    let encoded = b85_encode(compressed.as_slice());
    let mut out = String::from_str(
        "return load(require(\"/cc-sync/llz4\").decompress(select(2, require(\"/cc-sync/base85\").decode(\"",
    );
    out.append(encoded.as_str());
    out.append("\"))), \"crimes\", \"t\", _G)()");
    assert(out@ =~= lz4_asset_spec(content@));
    out
}

} // verus!
