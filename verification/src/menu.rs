//! The model-selection menus as decisions on plain values: the shell reads
//! keys and draws, this module steps the selection and lays the lines out.
use vstd::prelude::*;

use crate::errors::spec_dec;
use crate::extract::{array_len_at_path, str_at_path};

verus! {

/// A key press, as far as the menus care.
pub enum MenuKey {
    Up,
    Down,
    Enter,
    Esc,
    Other,
}

/// The provider list: names, and whether each can be selected. Only the
/// local provider is implemented.
pub fn provider_entries() -> (r: Vec<(&'static str, bool)>)
    ensures
        r@.len() == 8,
        forall|i: int| 0 <= i < 7 ==> !(#[trigger] r@[i]).1,
        r@[7].1,
        r@[7].0@ == "Ollama"@,
{
    let mut v: Vec<(&'static str, bool)> = Vec::new();
    v.push(("OpenAI", false));
    v.push(("Anthropic", false));
    v.push(("Google", false));
    v.push(("xAI", false));
    v.push(("Moonshot", false));
    v.push(("DeepSeek", false));
    v.push(("OpenRouter", false));
    v.push(("Ollama", true));
    v
}

/// The selection one step up, wrapping to the bottom.
pub open spec fn menu_prev(sel: int, len: int) -> int {
    if sel == 0 {
        if len >= 1 {
            len - 1
        } else {
            0
        }
    } else {
        sel - 1
    }
}

/// The selection one step down, wrapping to the top.
pub open spec fn menu_next(sel: int, len: int) -> int {
    if sel >= len - 1 {
        0
    } else {
        sel + 1
    }
}

/// What the provider menu does on a key: move the selection, open the model
/// menu (only on the implemented provider), or leave.
pub enum ProviderStep {
    Stay(usize),
    OpenModelMenu,
    Leave,
}

/// Steps the provider menu. `Enter` on an unimplemented provider stays put;
/// on the implemented one it opens the model menu.
pub fn provider_menu_step(selection: usize, len: usize, implemented: bool, key: MenuKey) -> (r:
    ProviderStep)
    requires
        selection < len,
    ensures
        match r {
            ProviderStep::Stay(s) => s < len && (match key {
                MenuKey::Up => s == menu_prev(selection as int, len as int),
                MenuKey::Down => s == menu_next(selection as int, len as int),
                MenuKey::Enter => s == selection && !implemented,
                MenuKey::Esc => false,
                MenuKey::Other => s == selection,
            }),
            ProviderStep::OpenModelMenu => key is Enter && implemented,
            ProviderStep::Leave => key is Esc,
        },
{
    match key {
        MenuKey::Up => ProviderStep::Stay(
            if selection == 0 {
                len - 1
            } else {
                selection - 1
            },
        ),
        MenuKey::Down => ProviderStep::Stay(
            if selection >= len - 1 {
                0
            } else {
                selection + 1
            },
        ),
        MenuKey::Enter => if implemented {
            ProviderStep::OpenModelMenu
        } else {
            ProviderStep::Stay(selection)
        },
        MenuKey::Esc => ProviderStep::Leave,
        MenuKey::Other => ProviderStep::Stay(selection),
    }
}

/// What the model menu does on a key: move, choose the selected model, or go
/// back.
pub enum ModelStep {
    Stay(usize),
    Choose(usize),
    Back,
}

/// Steps the model menu.
pub fn model_menu_step(selection: usize, len: usize, key: MenuKey) -> (r: ModelStep)
    requires
        selection < len,
    ensures
        match r {
            ModelStep::Stay(s) => s < len && (match key {
                MenuKey::Up => s == menu_prev(selection as int, len as int),
                MenuKey::Down => s == menu_next(selection as int, len as int),
                MenuKey::Enter => false,
                MenuKey::Esc => false,
                MenuKey::Other => s == selection,
            }),
            ModelStep::Choose(s) => key is Enter && s == selection,
            ModelStep::Back => key is Esc,
        },
{
    match key {
        MenuKey::Up => ModelStep::Stay(
            if selection == 0 {
                len - 1
            } else {
                selection - 1
            },
        ),
        MenuKey::Down => ModelStep::Stay(
            if selection >= len - 1 {
                0
            } else {
                selection + 1
            },
        ),
        MenuKey::Enter => ModelStep::Choose(selection),
        MenuKey::Esc => ModelStep::Back,
        MenuKey::Other => ModelStep::Stay(selection),
    }
}

/// One menu row: the selection marker, the one-based number, the name, and
/// the availability note.
pub open spec fn spec_menu_line(
    i: int,
    name: Seq<char>,
    selected: bool,
    implemented: bool,
) -> Seq<char> {
    (if selected {
        "> "@
    } else {
        "  "@
    }) + spec_dec(i + 1) + ". "@ + name + (if implemented {
        Seq::<char>::empty()
    } else {
        " (n/a)"@
    })
}

/// Renders one menu row.
pub fn menu_line(i: usize, name: &str, selected: bool, implemented: bool) -> (r: String)
    requires
        i < 1000000,
    ensures
        r@ == spec_menu_line(i as int, name@, selected, implemented),
{
    let mut l = if selected {
        "> ".to_owned()
    } else {
        "  ".to_owned()
    };
    let num = crate::errors::dec_u64((i as u64) + 1);
    l.append(num.as_str());
    l.append(". ");
    l.append(name);
    if !implemented {
        l.append(" (n/a)");
        proof {
            assert(l@ =~= spec_menu_line(i as int, name@, selected, implemented));
        }
    } else {
        proof {
            assert(l@ =~= spec_menu_line(i as int, name@, selected, implemented));
        }
    }
    l
}

/// The pointer path of one model's name in the host's tags answer.
pub open spec fn model_name_path(i: int) -> Seq<char> {
    "/models/"@ + spec_dec(i) + "/name"@
}

pub open spec fn spec_model_names_from(body: Seq<char>, i: int, n: int) -> Seq<Seq<char>>
    decreases n - i,
{
    if i < 0 || i >= n {
        Seq::empty()
    } else {
        (match str_at_path(body, model_name_path(i)) {
            Some(nm) => seq![nm],
            None => Seq::<Seq<char>>::empty(),
        }) + spec_model_names_from(body, i + 1, n)
    }
}

/// The model names the host's tags answer lists: one per element of its
/// `models` array that carries a string name; `None` when the answer holds
/// no such array.
pub open spec fn spec_model_names(body: Seq<char>) -> Option<Seq<Seq<char>>> {
    match array_len_at_path(body, "/models"@) {
        Some(n) => Some(spec_model_names_from(body, 0, n)),
        None => None,
    }
}

/// Reads the installed model names out of the host's tags answer.
#[verifier::loop_isolation(false)]
pub fn model_names_of(body: &str) -> (r: Option<Vec<String>>)
    ensures
        match r {
            Some(v) => spec_model_names(body@) == Some(v@.map_values(|s: String| s@)),
            None => spec_model_names(body@) is None,
        },
{
    let n = match crate::extract::json_arr_len_at(body, "/models") {
        Some(n) => n,
        None => {
            return None;
        },
    };
    let mut out: Vec<String> = Vec::new();
    let mut i: usize = 0;
    proof {
        assert(out@.map_values(|s: String| s@) =~= Seq::<Seq<char>>::empty());
    }
    while i < n
        invariant
            i <= n,
            array_len_at_path(body@, "/models"@) == Some(n as int),
            spec_model_names_from(body@, 0, n as int) =~= out@.map_values(|s: String| s@)
                + spec_model_names_from(body@, i as int, n as int),
        decreases n - i,
    {
        let ghost pre = out@.map_values(|s: String| s@);
        let path = crate::report::indexed_path("/models/", i, "/name");
        match crate::extract::json_str_at(body, path.as_str()) {
            Some(name) => {
                out.push(name);
                proof {
                    assert(out@.map_values(|s: String| s@) =~= pre + seq![out@.last()@]);
                }
            },
            None => {},
        }
        i = i + 1;
    }
    Some(out)
}

} // verus!
