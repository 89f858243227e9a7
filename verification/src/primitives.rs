//! The native primitives of the VM.
pub mod memory;
pub mod stack;
pub mod arith;
pub mod textio;
pub mod cstack;
pub mod misc;
pub mod compile;
pub mod control;
pub mod arrays;

pub use crate::exec::{dim_prim, register_all};
pub use crate::primitives::arith::{
    add_prim, and_prim, band_prim, bor_prim, div_prim, eq_prim, ge_prim, gt_prim, int_prim, le_prim,
    lt_prim, mod_prim, mul_prim, negate_prim, neq_prim, not_prim, or_prim, sub_prim,
};
pub use crate::primitives::arrays::{array_addr_prim, array_get_prim, array_len_prim, array_prim};
pub use crate::primitives::compile::{
    bif_prim, bit_prim, compile_expr_prim, compile_lvalue_prim, compile_lvalue_save_prim, def_prim,
    end_prim, goto_prim, return_prim, skip_comma_prim, skip_eq_prim, use_prim, var_prim,
};
pub use crate::primitives::cstack::{
    cs_close_tag_prim, cs_drop_prim, cs_dup_prim, cs_open_tag_prim, cs_over_prim, cs_pop_prim,
    cs_push_prim, cs_rot_prim, cs_swap_prim, patch_addr_prim,
};
pub use crate::primitives::misc::{
    allot_prim, append_prim, arg_addr_prim, assert_fail_msg_prim, assert_fail_prim, halt_prim,
    header_prim, here_prim, hour_prim, immediate_prim, lit_marker_prim, literal_prim, lookup_prim,
    minute_prim, randomize_prim, rnd_prim, state_prim, va_count_prim,
};
pub use crate::primitives::stack::{
    array_store_local_prim, drop_prim, dup_prim, fetch_prim, set_prim, store_prim, swap_prim,
};
pub use crate::primitives::textio::{
    accept_prim, get_output_prim, getdec_prim, getstr_prim, putchr_prim, putdec_prim, puthex_prim,
    putstr_prim, putval_prim, str_concat_prim, str_eq_prim, str_len_prim, str_lower_prim, str_prim,
    str_trim_prim, str_upper_prim,
};
