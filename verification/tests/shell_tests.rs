use omu_os::arch::paging::{AddressSpace, USER_ACCESSIBLE};
use omu_os::kernel::user::{map_user_space, user_frames_required};
use omu_os::mm::types::MemoryFrameAllocator;
use omu_os::shell::{
    shell_code, shell_help_msg, shell_ls_path, shell_prompt, Assembler, BUF_ADDR, HELP_MSG_ADDR, LINE_BUF_ADDR,
    LS_PATH_ADDR, PROMPT_ADDR, SHELL_CODE_LEN, USER_STACK_TOP,
};

fn put(v: &mut Vec<u8>, bytes: &[u8]) {
    v.extend_from_slice(bytes);
}

fn put_u32(v: &mut Vec<u8>, x: u32) {
    v.extend_from_slice(&x.to_le_bytes());
}

fn patch(v: &mut Vec<u8>, site: usize, target: usize) {
    let off = (target as isize - (site + 4) as isize) as u32;
    v[site..site + 4].copy_from_slice(&off.to_le_bytes());
}

/// The shell as the kernel's boot code wrote it out, instruction by instruction.
fn expected_shell() -> Vec<u8> {
    let mut c = Vec::new();
    let prompt_len = 8u32;
    let help_len = 41u32;
    let loop_start = c.len();
    put(&mut c, &[0xB8]); put_u32(&mut c, 4);
    put(&mut c, &[0xBB]); put_u32(&mut c, 1);
    put(&mut c, &[0xB9]); put_u32(&mut c, PROMPT_ADDR);
    put(&mut c, &[0xBA]); put_u32(&mut c, prompt_len);
    put(&mut c, &[0xCD, 0x80]);
    put(&mut c, &[0xBD]); put_u32(&mut c, 0);
    let read_loop_start = c.len();
    put(&mut c, &[0xB8]); put_u32(&mut c, 3);
    put(&mut c, &[0xBB]); put_u32(&mut c, 0);
    put(&mut c, &[0xB9]); put_u32(&mut c, BUF_ADDR);
    put(&mut c, &[0xBA]); put_u32(&mut c, 1);
    put(&mut c, &[0xCD, 0x80]);
    put(&mut c, &[0xB8]); put_u32(&mut c, 4);
    put(&mut c, &[0xBB]); put_u32(&mut c, 1);
    put(&mut c, &[0xB9]); put_u32(&mut c, BUF_ADDR);
    put(&mut c, &[0xBA]); put_u32(&mut c, 1);
    put(&mut c, &[0xCD, 0x80]);
    put(&mut c, &[0xA0]); put_u32(&mut c, BUF_ADDR);
    put(&mut c, &[0x3C, 0x0A]); put(&mut c, &[0x0F, 0x84]);
    let je_process = c.len(); put_u32(&mut c, 0);
    put(&mut c, &[0x3C, 0x0D]); put(&mut c, &[0x0F, 0x84]);
    let je_process2 = c.len(); put_u32(&mut c, 0);
    put(&mut c, &[0x89, 0xE9]); put(&mut c, &[0x81, 0xC1]); put_u32(&mut c, LINE_BUF_ADDR);
    put(&mut c, &[0x88, 0x01]); put(&mut c, &[0x45]);
    put(&mut c, &[0xE9]);
    let cur = c.len(); put_u32(&mut c, 0); patch(&mut c, cur, read_loop_start);
    let process_start = c.len();
    patch(&mut c, je_process, process_start);
    patch(&mut c, je_process2, process_start);
    put(&mut c, &[0x89, 0xE9]); put(&mut c, &[0x81, 0xC1]); put_u32(&mut c, LINE_BUF_ADDR);
    put(&mut c, &[0xC6, 0x01, 0x00]);
    put(&mut c, &[0x85, 0xED]); put(&mut c, &[0x0F, 0x84]);
    let je_empty = c.len(); put_u32(&mut c, 0);
    put(&mut c, &[0x83, 0xFD, 0x04]); put(&mut c, &[0x0F, 0x85]);
    let jne_ls = c.len(); put_u32(&mut c, 0);
    put(&mut c, &[0x81, 0x3D]); put_u32(&mut c, LINE_BUF_ADDR);
    put_u32(&mut c, u32::from_le_bytes([b'h', b'e', b'l', b'p']));
    put(&mut c, &[0x0F, 0x85]);
    let jne_ls2 = c.len(); put_u32(&mut c, 0);
    put(&mut c, &[0xB8]); put_u32(&mut c, 4);
    put(&mut c, &[0xBB]); put_u32(&mut c, 1);
    put(&mut c, &[0xB9]); put_u32(&mut c, HELP_MSG_ADDR);
    put(&mut c, &[0xBA]); put_u32(&mut c, help_len);
    put(&mut c, &[0xCD, 0x80]);
    put(&mut c, &[0xE9]);
    let cur = c.len(); put_u32(&mut c, 0); patch(&mut c, cur, loop_start);
    let ls_start = c.len();
    patch(&mut c, jne_ls, ls_start);
    patch(&mut c, jne_ls2, ls_start);
    put(&mut c, &[0x83, 0xFD, 0x02]); put(&mut c, &[0x0F, 0x85]);
    let jne_cat = c.len(); put_u32(&mut c, 0);
    put(&mut c, &[0x66, 0x81, 0x3D]); put_u32(&mut c, LINE_BUF_ADDR);
    put(&mut c, &[b'l', b's']); put(&mut c, &[0x0F, 0x85]);
    let jne_cat2 = c.len(); put_u32(&mut c, 0);
    put(&mut c, &[0xB8]); put_u32(&mut c, 5);
    put(&mut c, &[0xBB]); put_u32(&mut c, LS_PATH_ADDR);
    put(&mut c, &[0xB9]); put_u32(&mut c, 1);
    put(&mut c, &[0xCD, 0x80]);
    put(&mut c, &[0x89, 0xC3]);
    put(&mut c, &[0xB8]); put_u32(&mut c, 6);
    put(&mut c, &[0xB9]); put_u32(&mut c, BUF_ADDR);
    put(&mut c, &[0xBA]); put_u32(&mut c, 1000);
    put(&mut c, &[0xCD, 0x80]);
    put(&mut c, &[0x89, 0xC2]); put(&mut c, &[0x85, 0xD2]); put(&mut c, &[0x0F, 0x84]);
    let jz_print_ls = c.len(); put_u32(&mut c, 0);
    put(&mut c, &[0x31, 0xC9]);
    let replace_loop = c.len();
    put(&mut c, &[0x80, 0xB9]); put_u32(&mut c, BUF_ADDR); put(&mut c, &[0x00]);
    put(&mut c, &[0x75, 0x07]);
    put(&mut c, &[0xC6, 0x81]); put_u32(&mut c, BUF_ADDR); put(&mut c, &[0x0A]);
    put(&mut c, &[0x41]); put(&mut c, &[0x39, 0xD1]); put(&mut c, &[0x72]);
    let current = c.len() + 1;
    put(&mut c, &[(replace_loop as isize - current as isize) as u8]);
    let print_ls = c.len();
    patch(&mut c, jz_print_ls, print_ls);
    put(&mut c, &[0xB8]); put_u32(&mut c, 4);
    put(&mut c, &[0xBB]); put_u32(&mut c, 1);
    put(&mut c, &[0xB9]); put_u32(&mut c, BUF_ADDR);
    put(&mut c, &[0xCD, 0x80]);
    put(&mut c, &[0xB8]); put_u32(&mut c, 4);
    put(&mut c, &[0xBB]); put_u32(&mut c, 1);
    put(&mut c, &[0xC6, 0x05]); put_u32(&mut c, BUF_ADDR); put(&mut c, &[0x0A]);
    put(&mut c, &[0xB9]); put_u32(&mut c, BUF_ADDR);
    put(&mut c, &[0xBA]); put_u32(&mut c, 1);
    put(&mut c, &[0xCD, 0x80]);
    put(&mut c, &[0xE9]);
    let cur = c.len(); put_u32(&mut c, 0); patch(&mut c, cur, loop_start);
    let cat_start = c.len();
    patch(&mut c, jne_cat, cat_start);
    patch(&mut c, jne_cat2, cat_start);
    put(&mut c, &[0x83, 0xFD, 0x04]); put(&mut c, &[0x0F, 0x8E]);
    let jle_invalid = c.len(); put_u32(&mut c, 0);
    put(&mut c, &[0x81, 0x3D]); put_u32(&mut c, LINE_BUF_ADDR);
    put_u32(&mut c, u32::from_le_bytes([b'c', b'a', b't', b' ']));
    put(&mut c, &[0x0F, 0x85]);
    let jne_invalid = c.len(); put_u32(&mut c, 0);
    put(&mut c, &[0xB8]); put_u32(&mut c, 5);
    put(&mut c, &[0xBB]); put_u32(&mut c, LINE_BUF_ADDR + 4);
    put(&mut c, &[0x89, 0xE9]); put(&mut c, &[0x83, 0xE9, 0x04]);
    put(&mut c, &[0xCD, 0x80]);
    put(&mut c, &[0x89, 0xC3]);
    put(&mut c, &[0xB8]); put_u32(&mut c, 3);
    put(&mut c, &[0xB9]); put_u32(&mut c, BUF_ADDR);
    put(&mut c, &[0xBA]); put_u32(&mut c, 1000);
    put(&mut c, &[0xCD, 0x80]);
    put(&mut c, &[0x89, 0xC2]);
    put(&mut c, &[0xB8]); put_u32(&mut c, 4);
    put(&mut c, &[0xBB]); put_u32(&mut c, 1);
    put(&mut c, &[0xB9]); put_u32(&mut c, BUF_ADDR);
    put(&mut c, &[0xCD, 0x80]);
    put(&mut c, &[0xB8]); put_u32(&mut c, 4);
    put(&mut c, &[0xBB]); put_u32(&mut c, 1);
    put(&mut c, &[0xC6, 0x05]); put_u32(&mut c, BUF_ADDR); put(&mut c, &[0x0A]);
    put(&mut c, &[0xB9]); put_u32(&mut c, BUF_ADDR);
    put(&mut c, &[0xBA]); put_u32(&mut c, 1);
    put(&mut c, &[0xCD, 0x80]);
    let invalid_start = c.len();
    patch(&mut c, jle_invalid, invalid_start);
    patch(&mut c, jne_invalid, invalid_start);
    patch(&mut c, je_empty, invalid_start);
    put(&mut c, &[0xE9]);
    let cur = c.len(); put_u32(&mut c, 0); patch(&mut c, cur, loop_start);
    c
}

#[test]
fn shell_code_matches_the_instruction_listing() {
    let code = shell_code();
    assert_eq!(code.len(), SHELL_CODE_LEN);
    assert_eq!(code, expected_shell());
}

#[test]
fn shell_jumps_land_on_their_labels() {
    let code = shell_code();
    let disp = |site: usize| i32::from_le_bytes([code[site], code[site + 1], code[site + 2], code[site + 3]]) as isize;
    assert_eq!(104 + 4 + disp(104), 27);
    assert_eq!(80 + 4 + disp(80), 108);
    assert_eq!(433 + 4 + disp(433), 0);
    assert_eq!(123 + 4 + disp(123), 432);
    assert_eq!(code[271], 0xEB);
}

#[test]
fn shell_data() {
    assert_eq!(shell_prompt(), b"OMU-OS> ".to_vec());
    assert_eq!(shell_help_msg(), b"Supported commands: help, ls, cat <file>\n".to_vec());
    assert_eq!(shell_ls_path(), b"/".to_vec());
}

#[test]
fn assembler_patches_forward_and_backward_jumps() {
    let mut a = Assembler::new();
    a.emit(0x90);
    let site = a.reserve_rel32();
    a.emit(0x90);
    a.patch_rel32(site, 10);
    a.emit_rel32(0);
    a.emit_u32(0x1122_3344);
    let code = a.finish();
    assert_eq!(code, vec![0x90, 5, 0, 0, 0, 0x90, 0xF6, 0xFF, 0xFF, 0xFF, 0x44, 0x33, 0x22, 0x11]);
}

#[test]
fn user_space_maps_code_and_stack_pages_to_fresh_frames() {
    let mut space = AddressSpace::kernel(0x1000, 0x2000);
    let mut frames = MemoryFrameAllocator::new();
    frames.init(None);
    assert_eq!(user_frames_required(&space), 84);
    let free_before = frames.free_frame_count();
    map_user_space(&mut space, &mut frames);
    assert_eq!(frames.free_frame_count(), free_before - 84);
    assert_eq!(user_frames_required(&space), 81);
    assert!(space.tables_held_by(&frames));
    // the first code page takes the first free frame, its table the next one
    assert_eq!(space.translate(0x4000_0000), Some(0x80_0000));
    assert_eq!(space.translate(0x4000_0123), Some(0x80_0123));
    assert_eq!(space.directory.entries[256] & 0xFFFF_F000, 0x80_1000);
    assert_ne!(space.directory.entries[256] & USER_ACCESSIBLE, 0);
    // the stack is mapped from 0xA000_0000 downward
    assert_eq!(space.translate(0xA000_0000), Some(0x82_9000));
    assert_eq!(space.translate(0x9FFF_F000), Some(0x82_B000));
    assert_eq!(space.translate(0x9FFF_E000), Some(0x82_D000));
    assert_eq!(space.translate(0x9FFD_9000), Some(0x85_2000));
    assert_eq!(space.translate(USER_STACK_TOP - 4096), Some(0x85_3000));
    let mut pages: Vec<u32> = Vec::new();
    for i in 0..40u32 {
        pages.push(0x4000_0000 + i * 4096);
        pages.push(0xA000_0000 - i * 4096);
    }
    pages.push(USER_STACK_TOP - 4096);
    let mut seen: Vec<u32> = Vec::new();
    for v in pages {
        let p = space.translate(v + 8).expect("user page mapped");
        assert_eq!(p & 0xFFF, 8);
        assert!(p >= 0x80_0000);
        assert!(!seen.contains(&(p & !0xFFF)));
        seen.push(p & !0xFFF);
    }
    assert_eq!(seen.len(), 81);
    // nothing else became reachable
    assert_eq!(space.translate(0x4002_8000), None);
    assert_eq!(space.translate(0x9FFD_8FFF), None);
    assert_eq!(space.translate(0xA000_1000), None);
    assert_eq!(space.translate(0xA000_4000), None);
    assert_eq!(space.translate(0x1234), Some(0x1234));
    // 81 pages and three page tables were taken
    assert_eq!(frames.allocate_frame(), Some(0x80_0000 + 84 * 4096));
}
