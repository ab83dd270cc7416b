//! Deployment cache and publisher: deduplication of upload requests by
//! (signing key, absolute source path), the publish command lines, and the
//! success-marker check on the publish tool's output.
use vstd::prelude::*;

use crate::error::ContainerError;
use crate::strutil::{contains_seq, join_commas, lemma_join_push, str_contains, views_of};

verus! {

/// The dedup key for one logical deployment target: signing key and absolute
/// source path, joined by a colon.
pub open spec fn contract_key_spec(private_key: Seq<char>, absolute_dir: Seq<char>) -> Seq<char> {
    private_key + seq![':'] + absolute_dir
}

pub fn contract_key(private_key: &str, absolute_dir: &str) -> (r: String)
    ensures
        r@ == contract_key_spec(private_key@, absolute_dir@),
{
    proof {
        reveal_strlit(":");
    }
    let mut s = private_key.to_owned();
    s.append(":");
    s.append(absolute_dir);
    s
}

/// Whether a (deduplicated) upload call proceeds to staging and publishing.
pub open spec fn should_publish_spec(deploy: bool, cached: bool, override_contract: bool) -> bool {
    deploy && (override_contract || !cached)
}

/// The cache after one successful publish of `key` is recorded.
pub open spec fn record_spec(cache: Seq<Seq<char>>, key: Seq<char>) -> Seq<Seq<char>> {
    if cache.contains(key) {
        cache
    } else {
        cache.push(key)
    }
}

/// Once a publish of `key` is recorded, a later call for the same key without
/// the override flag never publishes again.
pub proof fn lemma_second_upload_skips(cache: Seq<Seq<char>>, key: Seq<char>, deploy: bool)
    ensures
        record_spec(cache, key).contains(key),
        !should_publish_spec(deploy, record_spec(cache, key).contains(key), false),
{
    if !cache.contains(key) {
        assert(cache.push(key)[cache.len() as int] == key);
    }
}

/// The override flag forces staging and publishing even for a cached key.
pub proof fn lemma_override_republishes(cache: Seq<Seq<char>>, key: Seq<char>)
    ensures
        should_publish_spec(true, cache.contains(key), true),
{
}

/// Membership test on the dedup cache.
pub fn cache_contains(cache: &Vec<String>, key: &String) -> (r: bool)
    ensures
        r == views_of(cache@).contains(key@),
{
    crate::strutil::contains_string(cache, key)
}

/// Inserts a key known to have published successfully; keys already present
/// stay single.
pub fn cache_record(cache: &mut Vec<String>, key: String)
    ensures
        views_of(final (cache)@) == record_spec(views_of(old(cache)@), key@),
{
    let present = cache_contains(cache, &key);
    if !present {
        let ghost prev = cache@;
        cache.push(key);
        proof {
            assert(views_of(cache@) =~= views_of(prev).push(key@));
        }
    }
}

/// The literal substring whose presence in the publish tool's output marks an
/// on-chain execution as successful.
pub open spec fn success_marker_spec() -> Seq<char> {
    "\"vm_status\": \"Executed successfully\""@
}

/// Did the publish output carry the success marker? The tool can exit zero
/// while the transaction failed, so only this marker counts.
pub open spec fn publish_succeeded(stdout: Seq<char>) -> bool {
    contains_seq(stdout, success_marker_spec())
}

pub fn publish_outcome(stdout: &str) -> (r: Result<(), ContainerError>)
    ensures
        publish_succeeded(stdout@) ==> r is Ok,
        !publish_succeeded(stdout@) ==> r == Result::<(), ContainerError>::Err(
            ContainerError::PublishFailed,
        ),
{
    if str_contains(stdout, "\"vm_status\": \"Executed successfully\"") {
        Ok(())
    } else {
        Err(ContainerError::PublishFailed)
    }
}

/// The `k=v` rendering of one named address.
pub open spec fn pair_views(pairs: Seq<(String, String)>) -> Seq<Seq<char>> {
    pairs.map_values(|p: (String, String)| p.0@ + seq!['='] + p.1@)
}

/// The address-substitution argument: nothing for an empty mapping, otherwise
/// the flag followed by comma-joined `name=address` pairs.
pub open spec fn named_addresses_param_spec(pairs: Seq<(String, String)>) -> Seq<char> {
    if pairs.len() == 0 {
        Seq::<char>::empty()
    } else {
        "--named-addresses "@ + join_commas(pair_views(pairs))
    }
}

pub fn named_addresses_param(pairs: &Vec<(String, String)>) -> (r: String)
    ensures
        r@ == named_addresses_param_spec(pairs@),
{
    if pairs.len() == 0 {
        return String::new();
    }
    proof {
        reveal_strlit(",");
        reveal_strlit("=");
    }
    let mut joined = String::new();
    let mut i: usize = 0;
    while i < pairs.len()
        invariant
            i <= pairs@.len(),
            i == 0 ==> joined@.len() == 0,
            i > 0 ==> joined@ == join_commas(pair_views(pairs@).take(i as int)),
        decreases pairs@.len() - i,
    {
        let ghost parts = pair_views(pairs@);
        if i > 0 {
            joined.append(",");
        }
        let p = &pairs[i];
        joined.append(p.0.as_str());
        joined.append("=");
        joined.append(p.1.as_str());
        proof {
            reveal_strlit(",");
            reveal_strlit("=");
            let entry = parts[i as int];
            assert(parts.take(i as int).push(entry) =~= parts.take(i + 1));
            lemma_join_push(parts.take(i as int), entry);
            if i == 0 {
                assert(joined@ =~= join_commas(parts.take(1)));
            } else {
                assert(joined@ =~= join_commas(parts.take(i + 1)));
            }
        }
        i = i + 1;
    }
    proof {
        assert(pair_views(pairs@).take(pairs@.len() as int) =~= pair_views(pairs@));
    }
    let mut s = "--named-addresses ".to_owned();
    s.append(joined.as_str());
    s
}

/// The publish tool invocation for one package directory.
pub open spec fn publish_command_spec(
    dir: Seq<char>,
    private_key: Seq<char>,
    params: Seq<char>,
    url: Seq<char>,
) -> Seq<char> {
    "cd "@ + dir + " && aptos move publish --skip-fetch-latest-git-deps --private-key "@
        + private_key + " --assume-yes "@ + params + " --url "@ + url
        + " --included-artifacts none"@
}

pub fn publish_command(dir: &str, private_key: &str, params: &str, url: &str) -> (r: String)
    ensures
        r@ == publish_command_spec(dir@, private_key@, params@, url@),
{
    let mut s = "cd ".to_owned();
    s.append(dir);
    s.append(" && aptos move publish --skip-fetch-latest-git-deps --private-key ");
    s.append(private_key);
    s.append(" --assume-yes ");
    s.append(params);
    s.append(" --url ");
    s.append(url);
    s.append(" --included-artifacts none");
    s
}

/// The publish invocations for one upload: one against the staging root when
/// no sub-packages are named, otherwise one per sub-package in list order.
pub open spec fn publish_commands_spec(
    staging: Seq<char>,
    private_key: Seq<char>,
    params: Seq<char>,
    url: Seq<char>,
    sub_packages: Option<Seq<Seq<char>>>,
) -> Seq<Seq<char>> {
    match sub_packages {
        None => seq![publish_command_spec(staging, private_key, params, url)],
        Some(subs) => subs.map_values(
            (|s: Seq<char>| publish_command_spec(staging + seq!['/'] + s, private_key, params, url)),
        ),
    }
}

pub fn publish_commands(
    staging: &str,
    private_key: &str,
    params: &str,
    url: &str,
    sub_packages: &Option<Vec<String>>,
) -> (r: Vec<String>)
    ensures
        views_of(r@) == publish_commands_spec(
            staging@,
            private_key@,
            params@,
            url@,
            match sub_packages {
                Some(v) => Some(views_of(v@)),
                None => None,
            },
        ),
{
    proof {
        reveal_strlit("/");
    }
    let mut out: Vec<String> = Vec::new();
    match sub_packages {
        None => {
            let cmd = publish_command(staging, private_key, params, url);
            let ghost cmd_view = cmd@;
            out.push(cmd);
            proof {
                assert(views_of(out@) =~= seq![cmd_view]);
            }
        },
        Some(subs) => {
            let mut k: usize = 0;
            while k < subs.len()
                invariant
                    k <= subs@.len(),
                    views_of(out@) =~= publish_commands_spec(
                        staging@,
                        private_key@,
                        params@,
                        url@,
                        Some(views_of(subs@).take(k as int)),
                    ),
                decreases subs@.len() - k,
            {
                let mut dir = staging.to_owned();
                dir.append("/");
                dir.append(subs[k].as_str());
                let cmd = publish_command(dir.as_str(), private_key, params, url);
                let ghost prev = out@;
                let ghost cmd_view = cmd@;
                out.push(cmd);
                proof {
                    reveal_strlit("/");
                    assert(dir@ =~= staging@ + seq!['/'] + subs@[k as int]@);
                    assert(views_of(out@) =~= views_of(prev).push(cmd_view));
                    assert(views_of(subs@).take(k + 1) =~= views_of(subs@).take(k as int).push(
                        subs@[k as int]@,
                    ));
                    assert(views_of(out@) =~= publish_commands_spec(
                        staging@,
                        private_key@,
                        params@,
                        url@,
                        Some(views_of(subs@).take(k + 1)),
                    ));
                }
                k = k + 1;
            }
            proof {
                assert(views_of(subs@).take(subs@.len() as int) =~= views_of(subs@));
            }
        },
    }
    out
}

} // verus!
