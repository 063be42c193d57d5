//! Checking a provider's key before it is saved.
use vstd::prelude::*;
use crate::chat::{is_success, succeeded};
use crate::config::Provider;
use crate::number::{decimal, to_decimal};
use crate::text::{starts_with, trim, trimmed};

verus! {

#[derive(Debug, Clone)]
pub struct VerifyResult {
    pub ok: bool,
    pub message: String,
}

impl VerifyResult {
    pub fn ok(message: &str) -> (r: VerifyResult)
        ensures
            r.ok,
            r.message@ == message@,
    {
        VerifyResult { ok: true, message: message.to_owned() }
    }

    pub fn failed(message: &str) -> (r: VerifyResult)
        ensures
            !r.ok,
            r.message@ == message@,
    {
        VerifyResult { ok: false, message: message.to_owned() }
    }
}

/// How a key is checked: settled already, or by a request.
#[derive(Debug)]
pub enum KeyCheck {
    Settled { result: VerifyResult },
    Ask { url: &'static str, header: &'static str, value: String },
}

/// Whether a key of this provider can be checked by a request.
pub open spec fn is_asked(provider: Provider, key: Seq<char>) -> bool {
    &&& trimmed(key).len() > 0
    &&& match provider {
        Provider::Groq => true,
        Provider::ElevenLabs => true,
        Provider::Sarvam => false,
        Provider::NextbaseCodex => "nbmg_"@.is_prefix_of(key),
    }
}

/// Where a provider checks keys.
pub open spec fn check_url(provider: Provider) -> Seq<char> {
    match provider {
        Provider::Groq => "https://api.groq.com/openai/v1/models"@,
        Provider::ElevenLabs => "https://api.elevenlabs.io/v1/user"@,
        _ => "https://nextbase-model-gateway.infinitycorp.tech/v1/token/check"@,
    }
}

/// The answer where no request is made.
pub open spec fn settled(provider: Provider, key: Seq<char>) -> (bool, Seq<char>) {
    if trimmed(key).len() == 0 {
        (false, "No key entered."@)
    } else if provider is Sarvam {
        (true, "Sarvam key saved. It will be validated on first transcription."@)
    } else {
        (false, "Nextbase key must start with nbmg_."@)
    }
}

/// How to check a key. Sarvam exposes no lightweight verification endpoint: the first
/// transcription is the real check.
pub fn check_key(provider: Provider, key: &str) -> (r: KeyCheck)
    ensures
        match r {
            KeyCheck::Settled { result } => !is_asked(provider, key@) && (result.ok, result.message@)
                == settled(provider, key@),
            KeyCheck::Ask { url, header, value } => {
                &&& is_asked(provider, key@)
                &&& url@ == check_url(provider)
                &&& if provider is ElevenLabs {
                    header@ == "xi-api-key"@ && value@ == key@
                } else {
                    header@ == "authorization"@ && value@ == "Bearer "@ + key@
                }
            },
        },
{
    if trim(key).as_str().is_empty() {
        return KeyCheck::Settled { result: VerifyResult::failed("No key entered.") };
    }
    match provider {
        Provider::Groq => KeyCheck::Ask {
            url: "https://api.groq.com/openai/v1/models",
            header: "authorization",
            value: "Bearer ".to_owned().concat(key),
        },
        Provider::ElevenLabs => KeyCheck::Ask {
            url: "https://api.elevenlabs.io/v1/user",
            header: "xi-api-key",
            value: key.to_owned(),
        },
        Provider::Sarvam => KeyCheck::Settled {
            result: VerifyResult::ok(
                "Sarvam key saved. It will be validated on first transcription.",
            ),
        },
        Provider::NextbaseCodex => if starts_with(key, "nbmg_") {
            KeyCheck::Ask {
                url: "https://nextbase-model-gateway.infinitycorp.tech/v1/token/check",
                header: "authorization",
                value: "Bearer ".to_owned().concat(key),
            }
        } else {
            KeyCheck::Settled {
                result: VerifyResult::failed("Nextbase key must start with nbmg_."),
            }
        },
    }
}

/// What came of a check: the status of the reply, or why there was none.
#[derive(Debug)]
pub enum CheckReply {
    Status { status: u16 },
    Error { message: String },
}

/// What a reply says of a key: only a success accepts it.
pub fn judge_key(provider: Provider, reply: &CheckReply) -> (r: VerifyResult)
    ensures
        match reply {
            CheckReply::Status { status } => if is_success(*status) {
                r.ok && r.message@ == provider.name() + " key verified."@
            } else {
                !r.ok && r.message@ == provider.name() + " verification failed: HTTP "@ + decimal(
                    *status as nat,
                )
            },
            CheckReply::Error { message } => !r.ok && r.message@ == "Verification error: "@
                + message@,
        },
{
    match reply {
        CheckReply::Status { status } => if succeeded(*status) {
            VerifyResult::ok(provider.as_str().to_owned().concat(" key verified.").as_str())
        } else {
            VerifyResult::failed(
                provider.as_str().to_owned().concat(" verification failed: HTTP ").concat(
                    to_decimal(*status as u64).as_str(),
                ).as_str(),
            )
        },
        CheckReply::Error { message } => VerifyResult::failed(
            "Verification error: ".to_owned().concat(message.as_str()).as_str(),
        ),
    }
}

// --------------------------------------------------------------------------- laws

/// A key is tried out where its provider can be asked and it looks like one of its keys. Where it
/// is not, it is settled, and good only with the provider that tries it later.
pub proof fn a_key_is_tried_or_settled(provider: Provider, key: Seq<char>)
    ensures
        is_asked(provider, key) ==> provider != Provider::Sarvam && trimmed(key).len() > 0,
        trimmed(key).len() > 0 && (provider == Provider::Groq || provider == Provider::ElevenLabs)
            ==> is_asked(provider, key),
        provider == Provider::NextbaseCodex && trimmed(key).len() > 0 ==> (is_asked(provider, key)
            <==> "nbmg_"@.is_prefix_of(key)),
        settled(provider, key).0 <==> provider == Provider::Sarvam && trimmed(key).len() > 0,
{
}

/// Each provider that can be asked is asked at its own address.
pub proof fn each_provider_is_asked_at_its_own_address(a: Provider, b: Provider)
    requires
        a != Provider::Sarvam,
        b != Provider::Sarvam,
        check_url(a) == check_url(b),
    ensures
        a == b,
{
    reveal_strlit("https://api.groq.com/openai/v1/models");
    reveal_strlit("https://api.elevenlabs.io/v1/user");
    reveal_strlit("https://nextbase-model-gateway.infinitycorp.tech/v1/token/check");
    assert("https://api.groq.com/openai/v1/models"@.len() == 37);
    assert("https://api.elevenlabs.io/v1/user"@.len() == 33);
    assert("https://nextbase-model-gateway.infinitycorp.tech/v1/token/check"@.len() == 63);
}

} // verus!
