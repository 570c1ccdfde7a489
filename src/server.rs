use vstd::prelude::*;

verus! {

/// A target language, by its identifier.
pub struct Lang {
    pub name: String,
}

/// Why the server stage cannot run.
#[derive(Clone, Copy, Debug, PartialEq, Eq, Structural)]
pub enum ServerError {
    /// The language at this index of the request has no server generator.
    UnsupportedLanguage(usize),
}

/// `lang` is one of `supported`.
pub open spec fn is_supported(lang: Lang, supported: Seq<Lang>) -> bool {
    exists|j: int| 0 <= j < supported.len() && (#[trigger] supported[j]).name@ == lang.name@
}

/// The languages for which server code can be generated: none yet.
pub fn supported_languages() -> (r: Vec<Lang>)
    ensures
        r@.len() == 0,
{
    Vec::new()
}

fn supports(supported: &Vec<Lang>, lang: &Lang) -> (r: bool)
    ensures
        r == is_supported(*lang, supported@),
{
    let mut j: usize = 0;
    while j < supported.len()
        invariant
            j <= supported@.len(),
            forall|k: int| 0 <= k < j ==> supported@[k].name@ != lang.name@,
        decreases supported@.len() - j,
    {
        if supported[j].name == lang.name {
            return true;
        }
        j = j + 1;
    }
    false
}

/// Checks that every language requested for the server stage is supported.
/// Fails naming the first one that is not; the output directories are made
/// by the caller once this succeeds.
pub fn run(server: &Vec<Lang>, _input_files: &Vec<String>) -> (r: Result<(), ServerError>)
    ensures
        r is Ok <==> forall|i: int| 0 <= i < server@.len() ==> is_supported(#[trigger] server@[i], supported_languages_spec()),
        r matches Err(ServerError::UnsupportedLanguage(i)) ==> {
            &&& i < server@.len()
            &&& !is_supported(server@[i as int], supported_languages_spec())
            &&& forall|k: int| 0 <= k < i ==> is_supported(#[trigger] server@[k], supported_languages_spec())
        },
{
    let supported = supported_languages();
    let mut i: usize = 0;
    while i < server.len()
        invariant
            i <= server@.len(),
            supported@ == supported_languages_spec(),
            forall|k: int| 0 <= k < i ==> is_supported(#[trigger] server@[k], supported_languages_spec()),
        decreases server@.len() - i,
    {
        if !supports(&supported, &server[i]) {
            return Err(ServerError::UnsupportedLanguage(i));
        }
        i = i + 1;
    }
    Ok(())
}

/// The languages that `supported_languages` returns.
pub open spec fn supported_languages_spec() -> Seq<Lang> {
    Seq::empty()
}

} // verus!
